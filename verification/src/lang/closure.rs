//! `genericClosure`: the breadth-first closure of a set under an operator,
//! each key visited once.
use crate::lang::attrs::is_function;
use crate::lang::conts::{bump, bumped, item_value, value_in, Walked};
use crate::lang::frames::{Begin, Cont, FloatAsk, Generic, Num, Stage, Yield};
use crate::lang::heap::{Fault, Heap, HeapView, Item, Value};
use crate::lang::lists::Started;
use crate::lang::ops::{kind_name, type_text};
use crate::lang::strings::{order_texts, text_order, Order};
use crate::lang::walks::{
    float_task, int_order, new_float_task, order_ints, order_of_sign, sign_order, Ordered,
};
use crate::text::{append_str, text_of};
use vstd::prelude::*;

verus! {

/// Where a key belongs among the keys already seen.
#[derive(Debug, Clone, Copy)]
pub enum Sought {
    /// An equal key is there already.
    Present,
    /// Here.
    At(usize),
    /// A floating-point comparison against the middle of `lo..hi` decides.
    Ask { ask: FloatAsk, lo: usize, hi: usize },
}

impl HeapView {
    /// How two keys compare: numbers across their kinds, texts and paths by
    /// their characters, and nothing else.
    pub open spec fn key_order(self, a: Value, b: Value) -> (HeapView, Result<Ordered, Fault>) {
        match (a, b) {
            (Value::Int(x), Value::Int(y)) => (self, Ok(Ordered::Known(int_order(x, y)))),
            (Value::Float(x), Value::Float(y)) => (
                self,
                Ok(Ordered::Ask(FloatAsk::Order(Num::Float(x), Num::Float(y)))),
            ),
            (Value::Int(x), Value::Float(y)) => (
                self,
                Ok(Ordered::Ask(FloatAsk::Order(Num::Int(x), Num::Float(y)))),
            ),
            (Value::Float(x), Value::Int(y)) => (
                self,
                Ok(Ordered::Ask(FloatAsk::Order(Num::Float(x), Num::Int(y)))),
            ),
            (Value::Str(x), Value::Str(y)) => (
                self,
                Ok(Ordered::Known(text_order(self.text(x), self.text(y)))),
            ),
            (Value::Path(x), Value::Path(y)) => (
                self,
                Ok(Ordered::Known(text_order(self.text(x), self.text(y)))),
            ),
            _ => if a is List || b is List {
                self.missing("builtins.genericClosure with list keys"@)
            } else if type_text(a) == type_text(b) {
                self.fail(
                    "cannot compare "@ + type_text(a) + " with "@ + type_text(a)
                        + "; values of that type are incomparable"@,
                )
            } else {
                self.fail("cannot compare "@ + type_text(a) + " with "@ + type_text(b))
            },
        }
    }

    /// Binary search for a key.
    pub open spec fn seek(self, keys: Seq<Item>, k: Value, lo: usize, hi: usize) -> (
        HeapView,
        Result<Sought, Fault>,
    )
        decreases hi - lo,
    {
        if lo >= hi {
            (self, Ok(Sought::At(lo)))
        } else {
            let mid = (lo + (hi - lo) / 2) as usize;
            if mid >= keys.len() {
                self.fail("internal: genericClosure key index lost"@)
            } else {
                match self.key_order(k, item_value(keys[mid as int])) {
                    (h, Err(e)) => (h, Err(e)),
                    (h, Ok(Ordered::Ask(ask))) => (h, Ok(Sought::Ask { ask, lo, hi })),
                    (h, Ok(Ordered::Known(o))) => match o {
                        Order::Less => h.seek(keys, k, lo, mid),
                        Order::Greater => h.seek(keys, k, (mid + 1) as usize, hi),
                        Order::Equal => (h, Ok(Sought::Present)),
                    },
                }
            }
        }
    }

    pub open spec fn bi_generic_closure(self, args: usize) -> Started {
        match self.arg_attrs(args, 0) {
            (h, Err(e)) => (h, Err(e)),
            (h, Ok(m)) => match h.attr(m, "startSet"@) {
                (h, None) => h.fail("attribute 'startSet' missing"@),
                (h, Some(start)) => {
                    let (h, work) = h.new_list(Seq::empty());
                    let (h, res) = h.new_list(Seq::empty());
                    let (h, keys) = h.new_work(Seq::empty());
                    (
                        h,
                        Ok(
                            Begin::Cont(
                                Cont::Generic(
                                    Generic {
                                        start,
                                        stage: Stage::Fresh,
                                        work,
                                        taken: 0,
                                        res,
                                        keys,
                                        op: Value::Null,
                                        cur: 0,
                                        key: Value::Null,
                                        lo: 0,
                                        hi: 0,
                                        pending: 0,
                                        pi: 0,
                                    },
                                ),
                            ),
                        ),
                    )
                },
            },
        }
    }

    /// Takes the next element off the queue.
    pub open spec fn next_element(self, g: Generic) -> (HeapView, Walked) {
        if g.taken < self.list(g.work).len() {
            let s = self.list(g.work)[g.taken as int];
            (
                self,
                (
                    Cont::Generic(
                        Generic { cur: s, stage: Stage::Elem, taken: bump(g.taken), ..g },
                    ),
                    Ok(Yield::Force(s)),
                ),
            )
        } else {
            (self, (Cont::Generic(g), Ok(Yield::Done(Value::List(g.res)))))
        }
    }

    /// Forces the next element of the operator's result, or queues them all.
    pub open spec fn force_pending(self, g: Generic) -> (HeapView, Walked) {
        if g.pi < self.list(g.pending).len() {
            (
                self,
                (
                    Cont::Generic(Generic { stage: Stage::OpElem, ..g }),
                    Ok(Yield::Force(self.list(g.pending)[g.pi as int])),
                ),
            )
        } else {
            self.list_put(g.work, self.list(g.work) + self.list(g.pending)).next_element(g)
        }
    }

    /// Goes on from a search for the current key.
    pub open spec fn key_sought(self, g: Generic, found: Result<Sought, Fault>) -> (
        HeapView,
        Walked,
    ) {
        match found {
            Err(e) => (self, (Cont::Generic(g), Err(e))),
            Ok(Sought::Present) => self.next_element(g),
            Ok(Sought::Ask { ask, lo, hi }) => (
                self,
                (
                    Cont::Generic(Generic { stage: Stage::Probe, lo, hi, ..g }),
                    Ok(Yield::Sub(float_task(ask))),
                ),
            ),
            Ok(Sought::At(at)) => if at > self.work(g.keys).len() {
                self.stop(Cont::Generic(g), "internal: genericClosure key index lost"@)
            } else {
                (
                    self.work_put(
                        g.keys,
                        self.work(g.keys).insert(at as int, Item::Val(g.key)),
                    ).push_list(g.res, g.cur),
                    (
                        Cont::Generic(Generic { stage: Stage::OpResult, ..g }),
                        Ok(Yield::Apply(g.op, g.cur)),
                    ),
                )
            },
        }
    }

    pub open spec fn step_generic(self, g: Generic, args: usize, incoming: Option<Value>) -> (
        HeapView,
        Walked,
    ) {
        let c = Cont::Generic(g);
        match incoming {
            None => if g.stage == Stage::Fresh {
                (
                    self,
                    (
                        Cont::Generic(Generic { stage: Stage::StartSet, ..g }),
                        Ok(Yield::Force(g.start)),
                    ),
                )
            } else {
                self.stop(c, "internal: genericClosure restarted"@)
            },
            Some(v) => match g.stage {
                Stage::Fresh => self.stop(c, "internal: genericClosure restarted"@),
                Stage::StartSet => match self.want_list(v) {
                    (h, Err(e)) => (h, (c, Err(e))),
                    (h, Ok(items)) => if h.list(items).len() == 0 {
                        (h, (c, Ok(Yield::Done(v))))
                    } else {
                        let h = h.list_put(g.work, h.list(g.work) + h.list(items));
                        match h.arg_attrs(args, 0) {
                            (h, Err(e)) => (h, (c, Err(e))),
                            (h, Ok(m)) => match h.attr(m, "operator"@) {
                                (h, None) => h.stop(c, "attribute 'operator' missing"@),
                                (h, Some(op)) => (
                                    h,
                                    (
                                        Cont::Generic(Generic { stage: Stage::Operator, ..g }),
                                        Ok(Yield::Force(op)),
                                    ),
                                ),
                            },
                        }
                    },
                },
                Stage::Operator => if !(v is Closure || v is Builtin) {
                    self.stop(c, "expected a function but found "@ + type_text(v))
                } else {
                    self.next_element(Generic { op: v, ..g })
                },
                Stage::Elem => match self.want_attrs(v) {
                    (h, Err(e)) => (h, (c, Err(e))),
                    (h, Ok(m)) => match h.attr(m, "key"@) {
                        (h, None) => h.stop(c, "attribute 'key' missing"@),
                        (h, Some(k)) => (
                            h,
                            (
                                Cont::Generic(Generic { stage: Stage::Key, ..g }),
                                Ok(Yield::Force(k)),
                            ),
                        ),
                    },
                },
                Stage::Key => {
                    let g = Generic { key: v, ..g };
                    let keys = self.work(g.keys);
                    let (h, found) = self.seek(keys, v, 0, keys.len() as usize);
                    h.key_sought(g, found)
                },
                Stage::Probe => {
                    let keys = self.work(g.keys);
                    if g.lo >= g.hi {
                        self.stop(c, "internal: genericClosure key index lost"@)
                    } else {
                        let mid = (g.lo + (g.hi - g.lo) / 2) as usize;
                        match sign_order(incoming) {
                            Order::Equal => self.next_element(g),
                            Order::Less => {
                                let (h, found) = self.seek(keys, g.key, g.lo, mid);
                                h.key_sought(g, found)
                            },
                            Order::Greater => {
                                let (h, found) = self.seek(keys, g.key, bump(mid), g.hi);
                                h.key_sought(g, found)
                            },
                        }
                    }
                },
                Stage::OpResult => match self.want_list(v) {
                    (h, Err(e)) => (h, (c, Err(e))),
                    (h, Ok(l)) => h.force_pending(Generic { pending: l, pi: 0, ..g }),
                },
                Stage::OpElem => self.force_pending(Generic { pi: bump(g.pi), ..g }),
            },
        }
    }
}

impl Heap {
    fn key_order(&mut self, a: Value, b: Value) -> (r: Result<Ordered, Fault>)
        ensures
            old(self)@.key_order(a, b) == (final(self)@, r),
    {
        match (a, b) {
            (Value::Int(x), Value::Int(y)) => Ok(Ordered::Known(order_ints(x, y))),
            (Value::Float(x), Value::Float(y)) => Ok(
                Ordered::Ask(FloatAsk::Order(Num::Float(x), Num::Float(y))),
            ),
            (Value::Int(x), Value::Float(y)) => Ok(
                Ordered::Ask(FloatAsk::Order(Num::Int(x), Num::Float(y))),
            ),
            (Value::Float(x), Value::Int(y)) => Ok(
                Ordered::Ask(FloatAsk::Order(Num::Float(x), Num::Int(y))),
            ),
            (Value::Str(x), Value::Str(y)) => Ok(
                Ordered::Known(order_texts(&self.text(x), &self.text(y))),
            ),
            (Value::Path(x), Value::Path(y)) => Ok(
                Ordered::Known(order_texts(&self.text(x), &self.text(y))),
            ),
            (Value::List(_), _) => self.missing(text_of("builtins.genericClosure with list keys")),
            (_, Value::List(_)) => self.missing(text_of("builtins.genericClosure with list keys")),
            _ => {
                let x = text_of(kind_name(a));
                let y = text_of(kind_name(b));
                let mut msg = text_of("cannot compare ");
                append_str(&mut msg, kind_name(a));
                append_str(&mut msg, " with ");
                if crate::lang::heap::same_text(&x, &y) {
                    append_str(&mut msg, kind_name(a));
                    append_str(&mut msg, "; values of that type are incomparable");
                } else {
                    append_str(&mut msg, kind_name(b));
                }
                self.fail(msg)
            },
        }
    }

    fn seek(&mut self, keys: &Vec<Item>, k: Value, from: usize, to: usize) -> (r: Result<
        Sought,
        Fault,
    >)
        ensures
            old(self)@.seek(keys@, k, from, to) == (final(self)@, r),
    {
        let mut lo: usize = from;
        let mut hi: usize = to;
        while lo < hi
            invariant
                self@.seek(keys@, k, lo, hi) == old(self)@.seek(keys@, k, from, to),
            decreases hi - lo,
        {
            let mid = lo + (hi - lo) / 2;
            if mid >= keys.len() {
                return self.fail_str("internal: genericClosure key index lost");
            }
            match self.key_order(k, value_in(keys[mid])) {
                Err(e) => {
                    return Err(e);
                },
                Ok(Ordered::Ask(ask)) => {
                    return Ok(Sought::Ask { ask, lo, hi });
                },
                Ok(Ordered::Known(o)) => match o {
                    Order::Less => {
                        hi = mid;
                    },
                    Order::Greater => {
                        lo = mid + 1;
                    },
                    Order::Equal => {
                        return Ok(Sought::Present);
                    },
                },
            }
        }
        Ok(Sought::At(lo))
    }

    pub fn bi_generic_closure(&mut self, args: usize) -> (r: Result<Begin, Fault>)
        ensures
            old(self)@.bi_generic_closure(args) == (final(self)@, r),
    {
        match self.arg_attrs(args, 0) {
            Err(e) => Err(e),
            Ok(m) => match self.attr(m, "startSet") {
                None => self.fail_str("attribute 'startSet' missing"),
                Some(start) => {
                    let work = self.new_list(Vec::new());
                    let res = self.new_list(Vec::new());
                    let keys = self.new_work(Vec::new());
                    Ok(
                        Begin::Cont(
                            Cont::Generic(
                                Generic {
                                    start,
                                    stage: Stage::Fresh,
                                    work,
                                    taken: 0,
                                    res,
                                    keys,
                                    op: Value::Null,
                                    cur: 0,
                                    key: Value::Null,
                                    lo: 0,
                                    hi: 0,
                                    pending: 0,
                                    pi: 0,
                                },
                            ),
                        ),
                    )
                },
            },
        }
    }

    fn next_element(&mut self, g: Generic) -> (r: Walked)
        ensures
            old(self)@.next_element(g) == (final(self)@, r),
    {
        match self.list_get(g.work, g.taken) {
            Some(s) => (
                Cont::Generic(Generic { cur: s, stage: Stage::Elem, taken: bumped(g.taken), ..g }),
                Ok(Yield::Force(s)),
            ),
            None => (Cont::Generic(g), Ok(Yield::Done(Value::List(g.res)))),
        }
    }

    fn force_pending(&mut self, g: Generic) -> (r: Walked)
        ensures
            old(self)@.force_pending(g) == (final(self)@, r),
    {
        match self.list_get(g.pending, g.pi) {
            Some(s) => (
                Cont::Generic(Generic { stage: Stage::OpElem, ..g }),
                Ok(Yield::Force(s)),
            ),
            None => {
                let more = self.list(g.pending);
                self.list_append(g.work, &more);
                self.next_element(g)
            },
        }
    }

    fn key_sought(&mut self, g: Generic, found: Result<Sought, Fault>) -> (r: Walked)
        ensures
            old(self)@.key_sought(g, found) == (final(self)@, r),
    {
        match found {
            Err(e) => (Cont::Generic(g), Err(e)),
            Ok(Sought::Present) => self.next_element(g),
            Ok(Sought::Ask { ask, lo, hi }) => (
                Cont::Generic(Generic { stage: Stage::Probe, lo, hi, ..g }),
                Ok(Yield::Sub(new_float_task(ask))),
            ),
            Ok(Sought::At(at)) => {
                let mut keys = self.work(g.keys);
                if at > keys.len() {
                    return self.stop(Cont::Generic(g), "internal: genericClosure key index lost");
                }
                keys.insert(at, Item::Val(g.key));
                self.work_put(g.keys, keys);
                self.list_push(g.res, g.cur);
                (
                    Cont::Generic(Generic { stage: Stage::OpResult, ..g }),
                    Ok(Yield::Apply(g.op, g.cur)),
                )
            },
        }
    }

    pub fn step_generic(&mut self, g: Generic, args: usize, incoming: Option<Value>) -> (r: Walked)
        ensures
            old(self)@.step_generic(g, args, incoming) == (final(self)@, r),
    {
        let c = Cont::Generic(g);
        let v = match incoming {
            Some(v) => v,
            None => {
                if g.stage == Stage::Fresh {
                    return (
                        Cont::Generic(Generic { stage: Stage::StartSet, ..g }),
                        Ok(Yield::Force(g.start)),
                    );
                }
                return self.stop(c, "internal: genericClosure restarted");
            },
        };
        match g.stage {
            Stage::Fresh => self.stop(c, "internal: genericClosure restarted"),
            Stage::StartSet => match self.want_list(v) {
                Err(e) => (c, Err(e)),
                Ok(items) => {
                    let items = self.list(items);
                    if items.len() == 0 {
                        return (c, Ok(Yield::Done(v)));
                    }
                    self.list_append(g.work, &items);
                    match self.arg_attrs(args, 0) {
                        Err(e) => (c, Err(e)),
                        Ok(m) => match self.attr(m, "operator") {
                            None => self.stop(c, "attribute 'operator' missing"),
                            Some(op) => (
                                Cont::Generic(Generic { stage: Stage::Operator, ..g }),
                                Ok(Yield::Force(op)),
                            ),
                        },
                    }
                },
            },
            Stage::Operator => {
                if !is_function(v) {
                    let r = self.fail_type("expected a function but found ", v);
                    return (c, r);
                }
                self.next_element(Generic { op: v, ..g })
            },
            Stage::Elem => match self.want_attrs(v) {
                Err(e) => (c, Err(e)),
                Ok(m) => match self.attr(m, "key") {
                    None => self.stop(c, "attribute 'key' missing"),
                    Some(k) => (
                        Cont::Generic(Generic { stage: Stage::Key, ..g }),
                        Ok(Yield::Force(k)),
                    ),
                },
            },
            Stage::Key => {
                let g = Generic { key: v, ..g };
                let keys = self.work(g.keys);
                let found = self.seek(&keys, v, 0, keys.len());
                self.key_sought(g, found)
            },
            Stage::Probe => {
                let keys = self.work(g.keys);
                if g.lo >= g.hi {
                    return self.stop(c, "internal: genericClosure key index lost");
                }
                let mid = g.lo + (g.hi - g.lo) / 2;
                match order_of_sign(incoming) {
                    Order::Equal => self.next_element(g),
                    Order::Less => {
                        let found = self.seek(&keys, g.key, g.lo, mid);
                        self.key_sought(g, found)
                    },
                    Order::Greater => {
                        let found = self.seek(&keys, g.key, bumped(mid), g.hi);
                        self.key_sought(g, found)
                    },
                }
            },
            Stage::OpResult => match self.want_list(v) {
                Err(e) => (c, Err(e)),
                Ok(l) => self.force_pending(Generic { pending: l, pi: 0, ..g }),
            },
            Stage::OpElem => self.force_pending(Generic { pi: bumped(g.pi), ..g }),
        }
    }
}

} // verus!
