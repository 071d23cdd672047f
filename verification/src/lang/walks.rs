//! The walks over values: structural equality, ordering, `with` resolution
//! and deferred application.
use crate::lang::frames::{FloatAsk, Need, Num, Search, Task, Yield};
use crate::lang::heap::{lookup, EnvNode, Fault, Heap, HeapView, Item, Slot, Sym, Value};
use crate::lang::ops::{kind_name, type_text};
use crate::lang::strings::{order_texts, text_order, Order};
use crate::text::{append_str, text_of};
use vstd::prelude::*;

verus! {

/// The result of one step of a walk: the task as it now stands, and what it
/// wants.
pub type Stepped = (Task, Result<Yield, Fault>);

/// A task that asks the scheduler a floating-point question.
pub open spec fn float_task(ask: FloatAsk) -> Task {
    Task::Ask { need: Need::Float(ask), asked: false }
}

/// How two values compare as far as their outermost layer decides.
#[derive(Debug, Clone, Copy, PartialEq, Eq, Structural)]
pub enum Verdict {
    Unequal,
    /// Equal so far; the children have been queued.
    SoFar,
    /// A floating-point comparison decides.
    Ask(FloatAsk),
}

/// Pairs of elements, the first pair last.
pub open spec fn pairs_reversed(a: Seq<usize>, b: Seq<usize>, n: int) -> Seq<Item>
    decreases n,
{
    if n <= 0 {
        Seq::empty()
    } else {
        seq![Item::Pair(a[n - 1], b[n - 1])] + pairs_reversed(a, b, n - 1)
    }
}

/// The slots of a set, in symbol order.
pub open spec fn slots_of(s: Seq<(Sym, Slot)>) -> Seq<usize> {
    Seq::new(s.len(), |i: int| s[i].1)
}

/// The first position from `i` on where the names of two sets differ.
pub open spec fn names_differ(a: Seq<(Sym, Slot)>, b: Seq<(Sym, Slot)>, i: int) -> int
    decreases a.len() - i,
{
    if i >= a.len() || a[i].0 != b[i].0 {
        i
    } else {
        names_differ(a, b, i + 1)
    }
}

impl HeapView {
    pub open spec fn deep_eq_slots(self, l: Slot, r: Slot, negate: bool) -> (HeapView, Task) {
        let (h, work) = self.new_work(seq![Item::Pair(l, r)]);
        (h, Task::DeepEq { work, cur: None, stage: 0, negate })
    }

    /// Equality of two values, each put in a slot of its own.
    pub open spec fn deep_eq(self, l: Value, r: Value, negate: bool) -> (HeapView, Task) {
        let (h, ls) = self.value_slot(l);
        let (h, rs) = h.value_slot(r);
        h.deep_eq_slots(ls, rs, negate)
    }

    pub open spec fn compare(self, l: Value, r: Value, negate: bool) -> (HeapView, Task) {
        let (h, ls) = self.value_slot(l);
        let (h, rs) = h.value_slot(r);
        let (h, stack) = h.new_work(Seq::empty());
        (h, Task::Compare { stack, cur: Some((ls, rs)), stage: 1, negate })
    }

    /// Decides a pair as far as forced values allow, queueing children.
    pub open spec fn shallow(self, work: usize, l: Value, r: Value) -> (HeapView, Verdict) {
        let yes = |b: bool|
            if b {
                Verdict::SoFar
            } else {
                Verdict::Unequal
            };
        match (l, r) {
            (Value::Int(a), Value::Int(b)) => (self, yes(a == b)),
            (Value::Float(a), Value::Float(b)) => (
                self,
                Verdict::Ask(FloatAsk::Equal(Num::Float(a), Num::Float(b))),
            ),
            (Value::Int(a), Value::Float(b)) => (
                self,
                Verdict::Ask(FloatAsk::Equal(Num::Int(a), Num::Float(b))),
            ),
            (Value::Float(a), Value::Int(b)) => (
                self,
                Verdict::Ask(FloatAsk::Equal(Num::Float(a), Num::Int(b))),
            ),
            (Value::Bool(a), Value::Bool(b)) => (self, yes(a == b)),
            (Value::Null, Value::Null) => (self, Verdict::SoFar),
            (Value::Str(a), Value::Str(b)) => (self, yes(self.text(a) == self.text(b))),
            (Value::Path(a), Value::Path(b)) => (self, yes(self.text(a) == self.text(b))),
            (Value::List(a), Value::List(b)) => {
                let (x, y) = (self.list(a), self.list(b));
                if x.len() != y.len() {
                    (self, Verdict::Unequal)
                } else {
                    (
                        self.work_put(work, self.work(work) + pairs_reversed(x, y, x.len() as int)),
                        Verdict::SoFar,
                    )
                }
            },
            (Value::Attrs(a), Value::Attrs(b)) => {
                let (x, y) = (self.set(a), self.set(b));
                if x.len() != y.len() {
                    (self, Verdict::Unequal)
                } else {
                    // Names decide, but only after the values before the
                    // first differing name have been compared.
                    let stop = names_differ(x, y, 0);
                    let fail = if stop < x.len() {
                        seq![Item::Fail]
                    } else {
                        Seq::empty()
                    };
                    (
                        self.work_put(
                            work,
                            self.work(work) + fail + pairs_reversed(slots_of(x), slots_of(y), stop),
                        ),
                        Verdict::SoFar,
                    )
                }
            },
            _ => (self, Verdict::Unequal),
        }
    }

    /// Takes the next job of an equality walk.
    pub open spec fn eq_next(self, work: usize, negate: bool) -> (HeapView, Stepped) {
        let idle = Task::DeepEq { work, cur: None, stage: 0, negate };
        let w = self.work(work);
        if w.len() == 0 {
            (self, (idle, Ok(Yield::Done(Value::Bool(!negate)))))
        } else {
            let h = self.work_put(work, w.drop_last());
            match w.last() {
                Item::Pair(l, r) => (
                    h,
                    (
                        Task::DeepEq { work, cur: Some((l, r)), stage: 0, negate },
                        Ok(Yield::Force(l)),
                    ),
                ),
                _ => (h, (idle, Ok(Yield::Done(Value::Bool(negate))))),
            }
        }
    }

    pub open spec fn step_eq(
        self,
        work: usize,
        cur: Option<(Slot, Slot)>,
        stage: u8,
        negate: bool,
        incoming: Option<Value>,
    ) -> (HeapView, Stepped) {
        let idle = Task::DeepEq { work, cur: None, stage: 0, negate };
        match cur {
            None => if stage == 2 && incoming != Some(Value::Bool(true)) {
                (self, (idle, Ok(Yield::Done(Value::Bool(negate)))))
            } else {
                self.eq_next(work, negate)
            },
            Some((l, r)) => if stage == 0 {
                (self, (Task::DeepEq { work, cur, stage: 1, negate }, Ok(Yield::Force(r))))
            } else if l == r {
                // The same cell is equal to itself whatever it holds.
                self.eq_next(work, negate)
            } else {
                match self.forced(l) {
                    (h, Err(e)) => (h, (idle, Err(e))),
                    (h, Ok(lv)) => match h.forced(r) {
                        (h, Err(e)) => (h, (idle, Err(e))),
                        (h, Ok(rv)) => match h.shallow(work, lv, rv) {
                            (h, Verdict::Unequal) => (
                                h,
                                (idle, Ok(Yield::Done(Value::Bool(negate)))),
                            ),
                            (h, Verdict::SoFar) => h.eq_next(work, negate),
                            (h, Verdict::Ask(ask)) => (
                                h,
                                (
                                    Task::DeepEq { work, cur: None, stage: 2, negate },
                                    Ok(Yield::Sub(float_task(ask))),
                                ),
                            ),
                        },
                    },
                }
            },
        }
    }
}

/// A task that asks the scheduler a floating-point question.
pub fn new_float_task(ask: FloatAsk) -> (t: Task)
    ensures
        t == float_task(ask),
{
    Task::Ask { need: Need::Float(ask), asked: false }
}

fn list_pairs_reversed(a: &Vec<usize>, b: &Vec<usize>, n: usize) -> (r: Vec<Item>)
    requires
        n <= a.len(),
        n <= b.len(),
    ensures
        r@ == pairs_reversed(a@, b@, n as int),
{
    let mut out: Vec<Item> = Vec::new();
    let mut i: usize = n;
    while i > 0
        invariant
            i <= n <= a.len(),
            n <= b.len(),
            out@ + pairs_reversed(a@, b@, i as int) == pairs_reversed(a@, b@, n as int),
        decreases i,
    {
        let ghost before = out@;
        i -= 1;
        out.push(Item::Pair(a[i], b[i]));
        assert(out@ + pairs_reversed(a@, b@, i as int) =~= before + pairs_reversed(a@, b@, i + 1));
    }
    assert(out@ =~= out@ + pairs_reversed(a@, b@, 0));
    out
}

/// The slots of a set, in symbol order.
pub fn slots_in(s: &Vec<(Sym, Slot)>) -> (r: Vec<usize>)
    ensures
        r@ == slots_of(s@),
{
    let mut out: Vec<usize> = Vec::new();
    let mut i: usize = 0;
    while i < s.len()
        invariant
            i <= s.len(),
            out@ == slots_of(s@).take(i as int),
        decreases s.len() - i,
    {
        out.push(s[i].1);
        i += 1;
    }
    assert(slots_of(s@).take(s.len() as int) == slots_of(s@));
    out
}

fn find_difference(a: &Vec<(Sym, Slot)>, b: &Vec<(Sym, Slot)>) -> (r: usize)
    requires
        a.len() == b.len(),
    ensures
        r == names_differ(a@, b@, 0),
        r <= a.len(),
{
    let mut i: usize = 0;
    while i < a.len() && a[i].0 == b[i].0
        invariant
            i <= a.len(),
            a.len() == b.len(),
            names_differ(a@, b@, i as int) == names_differ(a@, b@, 0),
        decreases a.len() - i,
    {
        i += 1;
    }
    i
}

fn verdict(b: bool) -> (v: Verdict)
    ensures
        v == (if b {
            Verdict::SoFar
        } else {
            Verdict::Unequal
        }),
{
    if b {
        Verdict::SoFar
    } else {
        Verdict::Unequal
    }
}

impl Heap {
    pub fn deep_eq_slots(&mut self, l: Slot, r: Slot, negate: bool) -> (t: Task)
        ensures
            old(self)@.deep_eq_slots(l, r, negate) == (final(self)@, t),
    {
        let mut w: Vec<Item> = Vec::new();
        w.push(Item::Pair(l, r));
        assert(w@ =~= seq![Item::Pair(l, r)]);
        let work = self.new_work(w);
        Task::DeepEq { work, cur: None, stage: 0, negate }
    }

    pub fn deep_eq(&mut self, l: Value, r: Value, negate: bool) -> (t: Task)
        ensures
            old(self)@.deep_eq(l, r, negate) == (final(self)@, t),
    {
        let ls = self.value_slot(l);
        let rs = self.value_slot(r);
        self.deep_eq_slots(ls, rs, negate)
    }

    pub fn compare(&mut self, l: Value, r: Value, negate: bool) -> (t: Task)
        ensures
            old(self)@.compare(l, r, negate) == (final(self)@, t),
    {
        let ls = self.value_slot(l);
        let rs = self.value_slot(r);
        let stack = self.new_work(Vec::new());
        Task::Compare { stack, cur: Some((ls, rs)), stage: 1, negate }
    }

    pub fn shallow(&mut self, work: usize, l: Value, r: Value) -> (v: Verdict)
        ensures
            old(self)@.shallow(work, l, r) == (final(self)@, v),
    {
        match (l, r) {
            (Value::Int(a), Value::Int(b)) => verdict(a == b),
            (Value::Float(a), Value::Float(b)) => Verdict::Ask(
                FloatAsk::Equal(Num::Float(a), Num::Float(b)),
            ),
            (Value::Int(a), Value::Float(b)) => Verdict::Ask(
                FloatAsk::Equal(Num::Int(a), Num::Float(b)),
            ),
            (Value::Float(a), Value::Int(b)) => Verdict::Ask(
                FloatAsk::Equal(Num::Float(a), Num::Int(b)),
            ),
            (Value::Bool(a), Value::Bool(b)) => verdict(a == b),
            (Value::Null, Value::Null) => Verdict::SoFar,
            (Value::Str(a), Value::Str(b)) => verdict(self.texts_equal(a, b)),
            (Value::Path(a), Value::Path(b)) => verdict(self.texts_equal(a, b)),
            (Value::List(a), Value::List(b)) => {
                let x = self.list(a);
                let y = self.list(b);
                if x.len() != y.len() {
                    return Verdict::Unequal;
                }
                let more = list_pairs_reversed(&x, &y, x.len());
                self.work_append(work, &more);
                Verdict::SoFar
            },
            (Value::Attrs(a), Value::Attrs(b)) => {
                let x = self.set(a);
                let y = self.set(b);
                if x.len() != y.len() {
                    return Verdict::Unequal;
                }
                let stop = find_difference(&x, &y);
                let mut more: Vec<Item> = Vec::new();
                if stop < x.len() {
                    more.push(Item::Fail);
                }
                let ghost fail = more@;
                let mut pairs = list_pairs_reversed(&slots_in(&x), &slots_in(&y), stop);
                let ghost rest = pairs@;
                more.append(&mut pairs);
                self.work_append(work, &more);
                proof {
                    assert(more@ == fail + rest);
                    assert(old(self)@.work(work) + fail + rest =~= old(self)@.work(work) + (fail
                        + rest));
                    assert(fail =~= if stop < x.len() {
                        seq![Item::Fail]
                    } else {
                        Seq::empty()
                    });
                }
                Verdict::SoFar
            },
            _ => Verdict::Unequal,
        }
    }

    /// Whether two texts hold the same characters.
    pub fn texts_equal(&self, a: usize, b: usize) -> (r: bool)
        ensures
            r == (self@.text(a) == self@.text(b)),
    {
        crate::lang::heap::same_text(&self.text(a), &self.text(b))
    }

    pub fn eq_next(&mut self, work: usize, negate: bool) -> (r: Stepped)
        ensures
            old(self)@.eq_next(work, negate) == (final(self)@, r),
    {
        let idle = Task::DeepEq { work, cur: None, stage: 0, negate };
        match self.work_pop(work) {
            None => (idle, Ok(Yield::Done(Value::Bool(!negate)))),
            Some(Item::Pair(l, r)) => (
                Task::DeepEq { work, cur: Some((l, r)), stage: 0, negate },
                Ok(Yield::Force(l)),
            ),
            Some(_) => (idle, Ok(Yield::Done(Value::Bool(negate)))),
        }
    }

    pub fn step_eq(
        &mut self,
        work: usize,
        cur: Option<(Slot, Slot)>,
        stage: u8,
        negate: bool,
        incoming: Option<Value>,
    ) -> (r: Stepped)
        ensures
            old(self)@.step_eq(work, cur, stage, negate, incoming) == (final(self)@, r),
    {
        let idle = Task::DeepEq { work, cur: None, stage: 0, negate };
        match cur {
            None => {
                let held = match incoming {
                    Some(Value::Bool(b)) => b,
                    _ => false,
                };
                if stage == 2 && !held {
                    (idle, Ok(Yield::Done(Value::Bool(negate))))
                } else {
                    self.eq_next(work, negate)
                }
            },
            Some((l, r)) => {
                if stage == 0 {
                    return (
                        Task::DeepEq { work, cur, stage: 1, negate },
                        Ok(Yield::Force(r)),
                    );
                }
                if l == r {
                    return self.eq_next(work, negate);
                }
                let lv = match self.forced(l) {
                    Ok(v) => v,
                    Err(e) => {
                        return (idle, Err(e));
                    },
                };
                let rv = match self.forced(r) {
                    Ok(v) => v,
                    Err(e) => {
                        return (idle, Err(e));
                    },
                };
                match self.shallow(work, lv, rv) {
                    Verdict::Unequal => (idle, Ok(Yield::Done(Value::Bool(negate)))),
                    Verdict::SoFar => self.eq_next(work, negate),
                    Verdict::Ask(ask) => (
                        Task::DeepEq { work, cur: None, stage: 2, negate },
                        Ok(Yield::Sub(new_float_task(ask))),
                    ),
                }
            },
        }
    }
}

// -- ordering ----------------------------------------------------------------

/// How two scalars compare.
#[derive(Debug, Clone, Copy)]
pub enum Ordered {
    Known(Order),
    Ask(FloatAsk),
}

pub open spec fn int_order(a: i64, b: i64) -> Order {
    if a < b {
        Order::Less
    } else if a == b {
        Order::Equal
    } else {
        Order::Greater
    }
}

pub fn order_ints(a: i64, b: i64) -> (r: Order)
    ensures
        r == int_order(a, b),
{
    if a < b {
        Order::Less
    } else if a == b {
        Order::Equal
    } else {
        Order::Greater
    }
}

/// The order a sign stands for; anything but an integer stands for equality.
pub open spec fn sign_order(v: Option<Value>) -> Order {
    match v {
        Some(Value::Int(n)) => int_order(n, 0),
        _ => Order::Equal,
    }
}

pub fn order_of_sign(v: Option<Value>) -> (r: Order)
    ensures
        r == sign_order(v),
{
    match v {
        Some(Value::Int(n)) => order_ints(n, 0),
        _ => Order::Equal,
    }
}

impl HeapView {
    pub open spec fn scalar_order(self, l: Value, r: Value) -> (HeapView, Result<Ordered, Fault>) {
        match (l, r) {
            (Value::Int(a), Value::Int(b)) => (self, Ok(Ordered::Known(int_order(a, b)))),
            (Value::Float(a), Value::Float(b)) => (
                self,
                Ok(Ordered::Ask(FloatAsk::Order(Num::Float(a), Num::Float(b)))),
            ),
            (Value::Int(a), Value::Float(b)) => (
                self,
                Ok(Ordered::Ask(FloatAsk::Order(Num::Int(a), Num::Float(b)))),
            ),
            (Value::Float(a), Value::Int(b)) => (
                self,
                Ok(Ordered::Ask(FloatAsk::Order(Num::Float(a), Num::Int(b)))),
            ),
            (Value::Str(a), Value::Str(b)) => (
                self,
                Ok(Ordered::Known(text_order(self.text(a), self.text(b)))),
            ),
            (Value::Path(a), Value::Path(b)) => (
                self,
                Ok(Ordered::Known(text_order(self.text(a), self.text(b)))),
            ),
            _ => self.fail("cannot compare "@ + type_text(l) + " with "@ + type_text(r)),
        }
    }

    /// Moves on to the next pair of list elements, leaving lists that are
    /// used up.
    pub open spec fn compare_next(self, stack: usize, negate: bool) -> (HeapView, Stepped)
        decreases self.work(stack).len(),
    {
        let idle = Task::Compare { stack, cur: None, stage: 0, negate };
        let w = self.work(stack);
        if w.len() == 0 {
            // Everything compared equal, so `a < b` is false.
            (self, (idle, Ok(Yield::Done(Value::Bool(negate)))))
        } else {
            match w.last() {
                Item::Pos { a, b, i } => {
                    let (x, y) = (self.list(a), self.list(b));
                    if i >= x.len() || i >= y.len() {
                        let h = self.work_put(stack, w.drop_last());
                        if x.len() != y.len() {
                            (h, (idle, Ok(Yield::Done(Value::Bool((x.len() < y.len()) != negate)))))
                        } else {
                            h.compare_next(stack, negate)
                        }
                    } else {
                        let next = Item::Pos { a, b, i: (i + 1) as usize };
                        (
                            self.work_put(stack, w.update(w.len() - 1, next)),
                            (
                                Task::Compare {
                                    stack,
                                    cur: Some((x[i as int], y[i as int])),
                                    stage: 0,
                                    negate,
                                },
                                Ok(Yield::Force(x[i as int])),
                            ),
                        )
                    }
                },
                _ => {
                    let (h, r) = self.fail::<Yield>("internal: compare position lost"@);
                    (h, (idle, r))
                },
            }
        }
    }

    /// Goes on from the order of two scalars.
    pub open spec fn compare_decided(self, stack: usize, negate: bool, o: Order) -> (
        HeapView,
        Stepped,
    ) {
        if o != Order::Equal {
            (
                self,
                (
                    Task::Compare { stack, cur: None, stage: 0, negate },
                    Ok(Yield::Done(Value::Bool((o == Order::Less) != negate))),
                ),
            )
        } else {
            self.compare_next(stack, negate)
        }
    }

    pub open spec fn step_compare(
        self,
        stack: usize,
        cur: Option<(Slot, Slot)>,
        stage: u8,
        negate: bool,
        incoming: Option<Value>,
    ) -> (HeapView, Stepped) {
        let idle = Task::Compare { stack, cur: None, stage: 0, negate };
        match cur {
            None => if stage == 2 {
                self.compare_decided(stack, negate, sign_order(incoming))
            } else {
                self.compare_next(stack, negate)
            },
            Some((l, r)) => if stage == 0 {
                (self, (Task::Compare { stack, cur, stage: 1, negate }, Ok(Yield::Force(r))))
            } else {
                match self.forced(l) {
                    (h, Err(e)) => (h, (idle, Err(e))),
                    (h, Ok(lv)) => match h.forced(r) {
                        (h, Err(e)) => (h, (idle, Err(e))),
                        (h, Ok(rv)) => match (lv, rv) {
                            (Value::List(a), Value::List(b)) => h.work_put(
                                stack,
                                h.work(stack).push(Item::Pos { a, b, i: 0 }),
                            ).compare_next(stack, negate),
                            _ => match h.scalar_order(lv, rv) {
                                (h, Err(e)) => (h, (idle, Err(e))),
                                (h, Ok(Ordered::Known(o))) => h.compare_decided(stack, negate, o),
                                (h, Ok(Ordered::Ask(ask))) => (
                                    h,
                                    (
                                        Task::Compare { stack, cur: None, stage: 2, negate },
                                        Ok(Yield::Sub(float_task(ask))),
                                    ),
                                ),
                            },
                        },
                    },
                }
            },
        }
    }

    // -- with scopes ---------------------------------------------------------

    /// Walks outward from an environment to the next `with` scope. Each
    /// environment was made after the ones around it, so the walk ends.
    pub open spec fn walk_with(self, node: usize, sym: Sym) -> (HeapView, Stepped)
        decreases node,
    {
        let here = Task::ResolveWith { node, sym, search: Search::Walk };
        match self.env(node) {
            EnvNode::With { up, subject } => (
                self,
                (
                    Task::ResolveWith { node: up, sym, search: Search::AwaitSubject },
                    Ok(Yield::Force(subject)),
                ),
            ),
            EnvNode::Frame { up, .. } => if up < node {
                self.walk_with(up, sym)
            } else {
                let (h, r) = self.fail::<Yield>("internal: environment out of order"@);
                (h, (here, r))
            },
            EnvNode::Root => {
                let (h, r) = self.fail::<Yield>("undefined variable '"@ + self.sym_name(sym) + "'"@);
                (h, (here, r))
            },
        }
    }

    pub open spec fn step_with(
        self,
        node: usize,
        sym: Sym,
        search: Search,
        incoming: Option<Value>,
    ) -> (HeapView, Stepped) {
        let here = Task::ResolveWith { node, sym, search };
        match search {
            Search::AwaitValue => match incoming {
                Some(v) => (self, (here, Ok(Yield::Done(v)))),
                None => {
                    let (h, r) = self.fail::<Yield>("internal: with-resolve lost its value"@);
                    (h, (here, r))
                },
            },
            Search::AwaitSubject => match incoming {
                None => {
                    let (h, r) = self.fail::<Yield>("internal: with-resolve lost its subject"@);
                    (h, (here, r))
                },
                Some(v) => match v {
                    Value::Attrs(set) => match lookup(self.set(set), sym) {
                        Some(s) => (
                            self,
                            (
                                Task::ResolveWith { node, sym, search: Search::AwaitValue },
                                Ok(Yield::Force(s)),
                            ),
                        ),
                        None => self.walk_with(node, sym),
                    },
                    _ => self.walk_with(node, sym),
                },
            },
            Search::Walk => self.walk_with(node, sym),
        }
    }

    // -- deferred application ------------------------------------------------

    pub open spec fn step_chain(
        self,
        f: Option<Value>,
        args: usize,
        i: usize,
        incoming: Option<Value>,
    ) -> (HeapView, Stepped) {
        let f = match incoming {
            Some(v) => Some(v),
            None => f,
        };
        match f {
            None => {
                let (h, r) = self.fail::<Yield>("internal: apply chain lost its function"@);
                (h, (Task::ApplyChain { f: None, args, i }, r))
            },
            Some(f) => if i < self.list(args).len() {
                (
                    self,
                    (
                        Task::ApplyChain { f: None, args, i: (i + 1) as usize },
                        Ok(Yield::Apply(f, self.list(args)[i as int])),
                    ),
                )
            } else {
                (self, (Task::ApplyChain { f: None, args, i }, Ok(Yield::Done(f))))
            },
        }
    }

    /// Asks once, then hands the answer on.
    pub open spec fn step_need(self, need: Need, asked: bool, incoming: Option<Value>) -> (
        HeapView,
        Stepped,
    ) {
        let after = Task::Ask { need, asked: true };
        if !asked {
            (self, (after, Ok(Yield::Need(need))))
        } else {
            match incoming {
                Some(v) => (self, (after, Ok(Yield::Done(v)))),
                None => {
                    let (h, r) = self.fail::<Yield>("internal: answer lost"@);
                    (h, (after, r))
                },
            }
        }
    }
}

impl Heap {
    pub fn scalar_order(&mut self, l: Value, r: Value) -> (o: Result<Ordered, Fault>)
        ensures
            old(self)@.scalar_order(l, r) == (final(self)@, o),
    {
        match (l, r) {
            (Value::Int(a), Value::Int(b)) => Ok(Ordered::Known(order_ints(a, b))),
            (Value::Float(a), Value::Float(b)) => Ok(
                Ordered::Ask(FloatAsk::Order(Num::Float(a), Num::Float(b))),
            ),
            (Value::Int(a), Value::Float(b)) => Ok(
                Ordered::Ask(FloatAsk::Order(Num::Int(a), Num::Float(b))),
            ),
            (Value::Float(a), Value::Int(b)) => Ok(
                Ordered::Ask(FloatAsk::Order(Num::Float(a), Num::Int(b))),
            ),
            (Value::Str(a), Value::Str(b)) => Ok(
                Ordered::Known(order_texts(&self.text(a), &self.text(b))),
            ),
            (Value::Path(a), Value::Path(b)) => Ok(
                Ordered::Known(order_texts(&self.text(a), &self.text(b))),
            ),
            _ => {
                let mut msg = text_of("cannot compare ");
                append_str(&mut msg, kind_name(l));
                append_str(&mut msg, " with ");
                append_str(&mut msg, kind_name(r));
                self.fail(msg)
            },
        }
    }

    pub fn compare_next(&mut self, stack: usize, negate: bool) -> (r: Stepped)
        ensures
            old(self)@.compare_next(stack, negate) == (final(self)@, r),
    {
        let idle = Task::Compare { stack, cur: None, stage: 0, negate };
        let ghost goal = self@.compare_next(stack, negate);
        let mut left: usize = self.work_len(stack);
        while left > 0
            invariant
                left == self@.work(stack).len(),
                self@.compare_next(stack, negate) == goal,
                goal == old(self)@.compare_next(stack, negate),
                idle == (Task::Compare { stack, cur: None, stage: 0, negate }),
            decreases left,
        {
            let ghost w = self@.work(stack);
            match self.work_get(stack, left - 1) {
                Some(Item::Pos { a, b, i }) => {
                    let alen = self.list_len(a);
                    let blen = self.list_len(b);
                    match (self.list_get(a, i), self.list_get(b, i)) {
                        (Some(x), Some(y)) => {
                            self.work_set(stack, left - 1, Item::Pos { a, b, i: i + 1 });
                            return (
                                Task::Compare { stack, cur: Some((x, y)), stage: 0, negate },
                                Ok(Yield::Force(x)),
                            );
                        },
                        _ => {
                            let _ = self.work_pop(stack);
                            if alen != blen {
                                return (
                                    idle,
                                    Ok(Yield::Done(Value::Bool((alen < blen) != negate))),
                                );
                            }
                            left -= 1;
                        },
                    }
                },
                _ => {
                    let r = self.fail_str("internal: compare position lost");
                    return (idle, r);
                },
            }
        }
        (idle, Ok(Yield::Done(Value::Bool(negate))))
    }

    pub fn compare_decided(&mut self, stack: usize, negate: bool, o: Order) -> (r: Stepped)
        ensures
            old(self)@.compare_decided(stack, negate, o) == (final(self)@, r),
    {
        if o != Order::Equal {
            (
                Task::Compare { stack, cur: None, stage: 0, negate },
                Ok(Yield::Done(Value::Bool((o == Order::Less) != negate))),
            )
        } else {
            self.compare_next(stack, negate)
        }
    }

    pub fn step_compare(
        &mut self,
        stack: usize,
        cur: Option<(Slot, Slot)>,
        stage: u8,
        negate: bool,
        incoming: Option<Value>,
    ) -> (r: Stepped)
        ensures
            old(self)@.step_compare(stack, cur, stage, negate, incoming) == (final(self)@, r),
    {
        let idle = Task::Compare { stack, cur: None, stage: 0, negate };
        match cur {
            None => if stage == 2 {
                self.compare_decided(stack, negate, order_of_sign(incoming))
            } else {
                self.compare_next(stack, negate)
            },
            Some((l, r)) => {
                if stage == 0 {
                    return (
                        Task::Compare { stack, cur, stage: 1, negate },
                        Ok(Yield::Force(r)),
                    );
                }
                let lv = match self.forced(l) {
                    Ok(v) => v,
                    Err(e) => {
                        return (idle, Err(e));
                    },
                };
                let rv = match self.forced(r) {
                    Ok(v) => v,
                    Err(e) => {
                        return (idle, Err(e));
                    },
                };
                match (lv, rv) {
                    (Value::List(a), Value::List(b)) => {
                        self.work_push(stack, Item::Pos { a, b, i: 0 });
                        self.compare_next(stack, negate)
                    },
                    _ => match self.scalar_order(lv, rv) {
                        Err(e) => (idle, Err(e)),
                        Ok(Ordered::Known(o)) => self.compare_decided(stack, negate, o),
                        Ok(Ordered::Ask(ask)) => (
                            Task::Compare { stack, cur: None, stage: 2, negate },
                            Ok(Yield::Sub(new_float_task(ask))),
                        ),
                    },
                }
            },
        }
    }

    pub fn walk_with(&mut self, node: usize, sym: Sym) -> (r: Stepped)
        ensures
            old(self)@.walk_with(node, sym) == (final(self)@, r),
    {
        let mut at: usize = node;
        loop
            invariant
                *self == *old(self),
                self@.walk_with(at, sym) == old(self)@.walk_with(node, sym),
            decreases at,
        {
            let here = Task::ResolveWith { node: at, sym, search: Search::Walk };
            match self.env(at) {
                EnvNode::With { up, subject } => {
                    return (
                        Task::ResolveWith { node: up, sym, search: Search::AwaitSubject },
                        Ok(Yield::Force(subject)),
                    );
                },
                EnvNode::Frame { up, .. } => {
                    if up < at {
                        at = up;
                    } else {
                        let r = self.fail_str("internal: environment out of order");
                        return (here, r);
                    }
                },
                EnvNode::Root => {
                    let name = self.sym_name(sym);
                    let r = self.fail_with("undefined variable '", &name, "'");
                    return (here, r);
                },
            }
        }
    }

    pub fn step_with(
        &mut self,
        node: usize,
        sym: Sym,
        search: Search,
        incoming: Option<Value>,
    ) -> (r: Stepped)
        ensures
            old(self)@.step_with(node, sym, search, incoming) == (final(self)@, r),
    {
        let here = Task::ResolveWith { node, sym, search };
        match search {
            Search::AwaitValue => match incoming {
                Some(v) => (here, Ok(Yield::Done(v))),
                None => {
                    let r = self.fail_str("internal: with-resolve lost its value");
                    (here, r)
                },
            },
            Search::AwaitSubject => match incoming {
                None => {
                    let r = self.fail_str("internal: with-resolve lost its subject");
                    (here, r)
                },
                Some(Value::Attrs(set)) => match self.set_get(set, sym) {
                    Some(s) => (
                        Task::ResolveWith { node, sym, search: Search::AwaitValue },
                        Ok(Yield::Force(s)),
                    ),
                    None => self.walk_with(node, sym),
                },
                Some(_) => self.walk_with(node, sym),
            },
            Search::Walk => self.walk_with(node, sym),
        }
    }

    pub fn step_chain(
        &mut self,
        f: Option<Value>,
        args: usize,
        i: usize,
        incoming: Option<Value>,
    ) -> (r: Stepped)
        ensures
            old(self)@.step_chain(f, args, i, incoming) == (final(self)@, r),
    {
        let f = match incoming {
            Some(v) => Some(v),
            None => f,
        };
        match f {
            None => {
                let r = self.fail_str("internal: apply chain lost its function");
                (Task::ApplyChain { f: None, args, i }, r)
            },
            Some(f) => match self.list_get(args, i) {
                Some(arg) => (
                    Task::ApplyChain { f: None, args, i: i + 1 },
                    Ok(Yield::Apply(f, arg)),
                ),
                None => (Task::ApplyChain { f: None, args, i }, Ok(Yield::Done(f))),
            },
        }
    }

    pub fn step_need(&mut self, need: Need, asked: bool, incoming: Option<Value>) -> (r: Stepped)
        ensures
            old(self)@.step_need(need, asked, incoming) == (final(self)@, r),
    {
        let after = Task::Ask { need, asked: true };
        if !asked {
            return (after, Ok(Yield::Need(need)));
        }
        match incoming {
            Some(v) => (after, Ok(Yield::Done(v))),
            None => {
                let r = self.fail_str("internal: answer lost");
                (after, r)
            },
        }
    }
}

} // verus!
