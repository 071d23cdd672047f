//! Strict value printing, and the `toString` coercion, as resumable tasks.
//! Both walkers are a work list rather than a recursive descent: a printed
//! value can be as deep as the expression that built it.
use crate::lang::frames::{FloatAsk, Task, Yield};
use crate::lang::heap::{Fault, Heap, HeapView, Item, Slot, Sym, Value};
use crate::lang::ops::{kind_name, reversed, type_text};
use crate::lang::quote::{print_attr_name, print_string, printed, printed_name};
use crate::lang::strings::{order_texts, text_order, Order};
use crate::lang::walks::{float_task, new_float_task, Stepped};
use crate::text::{append_all, append_int, append_str, int_text, text_of, Text};
use vstd::prelude::*;

verus! {

impl HeapView {
    /// Where an entry goes among entries already ordered by name.
    pub open spec fn name_spot(self, out: Seq<(Sym, Slot)>, k: Sym, i: int) -> int
        decreases out.len() - i,
    {
        if i >= out.len() || text_order(self.sym_name(k), self.sym_name(out[i].0)) == Order::Less {
            i
        } else {
            self.name_spot(out, k, i + 1)
        }
    }

    /// The entries of a set ordered by name rather than by symbol.
    pub open spec fn by_name(self, s: Seq<(Sym, Slot)>) -> Seq<(Sym, Slot)>
        decreases s.len(),
    {
        if s.len() == 0 {
            s
        } else {
            let out = self.by_name(s.drop_last());
            out.insert(self.name_spot(out, s.last().0, 0), s.last())
        }
    }

    /// Queues the parts of a printed list: each element after a space, and a
    /// closing bracket.
    pub open spec fn queue_list(self, items: Seq<usize>, i: int, q: Seq<Item>) -> (
        HeapView,
        Seq<Item>,
    )
        decreases items.len() - i,
    {
        if i >= items.len() {
            let (h, t) = self.new_text(" ]"@);
            (h, q.push(Item::Lit(t)))
        } else {
            let (h, t) = self.new_text(" "@);
            h.queue_list(items, i + 1, q.push(Item::Lit(t)).push(Item::Lazy(items[i])))
        }
    }

    /// Queues the parts of a printed set.
    pub open spec fn queue_set(self, entries: Seq<(Sym, Slot)>, i: int, q: Seq<Item>) -> (
        HeapView,
        Seq<Item>,
    )
        decreases entries.len() - i,
    {
        if i >= entries.len() {
            let (h, t) = self.new_text(" }"@);
            (h, q.push(Item::Lit(t)))
        } else {
            let (h, lead) = self.new_text(
                " "@ + printed_name(self.sym_name(entries[i].0)) + " = "@,
            );
            let (h, end) = h.new_text(";"@);
            h.queue_set(
                entries,
                i + 1,
                q.push(Item::Lit(lead)).push(Item::Lazy(entries[i].1)).push(Item::Lit(end)),
            )
        }
    }

    /// Queues the elements of a list with spaces between.
    pub open spec fn queue_spaced(self, items: Seq<usize>, i: int, q: Seq<Item>) -> (
        HeapView,
        Seq<Item>,
    )
        decreases items.len() - i,
    {
        if i >= items.len() {
            (self, q)
        } else if i == 0 {
            self.queue_spaced(items, 1, q.push(Item::Lazy(items[0])))
        } else {
            let (h, t) = self.new_text(" "@);
            h.queue_spaced(items, i + 1, q.push(Item::Lit(t)).push(Item::Lazy(items[i])))
        }
    }

    pub open spec fn emit(self, out: usize, t: Seq<char>) -> HeapView {
        self.text_put(out, self.text(out) + t)
    }

    /// Puts queued items on a work list, the first to be taken first.
    pub open spec fn enqueue(self, work: usize, q: Seq<Item>) -> HeapView {
        self.work_put(work, self.work(work) + q.reverse())
    }

    /// Prints the outermost layer of a value and queues the rest.
    pub open spec fn render_print(self, work: usize, out: usize, v: Value) -> HeapView {
        match v {
            Value::Int(n) => self.emit(out, int_text(n as int)),
            Value::Float(x) => self.work_put(work, self.work(work).push(Item::Digits(x))),
            Value::Bool(b) => self.emit(
                out,
                if b {
                    "true"@
                } else {
                    "false"@
                },
            ),
            Value::Null => self.emit(out, "null"@),
            Value::Str(s) => self.emit(out, printed(self.text(s))),
            Value::Path(p) => self.emit(out, self.text(p)),
            Value::List(l) => if self.list(l).len() == 0 {
                self.emit(out, "[ ]"@)
            } else {
                let (h, q) = self.emit(out, "["@).queue_list(self.list(l), 0, Seq::empty());
                h.enqueue(work, q)
            },
            Value::Attrs(s) => if self.set(s).len() == 0 {
                self.emit(out, "{ }"@)
            } else {
                let (h, q) = self.emit(out, "{"@).queue_set(
                    self.by_name(self.set(s)),
                    0,
                    Seq::empty(),
                );
                h.enqueue(work, q)
            },
            Value::Closure { .. } => self.emit(out, "<LAMBDA>"@),
            Value::Builtin { args, .. } => self.emit(
                out,
                if self.list(args).len() == 0 {
                    "<PRIMOP>"@
                } else {
                    "<PRIMOP-APP>"@
                },
            ),
        }
    }

    /// Takes queued items until something has to be evaluated. `coerce`
    /// tells the two walks apart.
    pub open spec fn drain(self, coerce: bool, work: usize, out: usize) -> (HeapView, Stepped)
        decreases self.work(work).len(),
    {
        let w = self.work(work);
        if w.len() == 0 {
            (self, (walk_task(coerce, work, out, false), Ok(Yield::Done(Value::Str(out)))))
        } else {
            let h = self.work_put(work, w.drop_last());
            match w.last() {
                Item::Lit(t) => h.emit(out, h.text(t)).drain(coerce, work, out),
                Item::Digits(x) => (
                    h,
                    (
                        walk_task(coerce, work, out, true),
                        Ok(Yield::Sub(float_task(FloatAsk::Show(x)))),
                    ),
                ),
                Item::Lazy(s) => (
                    h,
                    (walk_task(coerce, work, out, false), Ok(Yield::Force(s))),
                ),
                _ => {
                    let (h, r) = h.fail::<Yield>("internal: print item lost"@);
                    (h, (walk_task(coerce, work, out, false), r))
                },
            }
        }
    }

    /// Emits the digits a float was asked for.
    pub open spec fn emit_answer(self, out: usize, v: Value) -> HeapView {
        match v {
            Value::Str(t) => self.emit(out, self.text(t)),
            _ => self,
        }
    }

    pub open spec fn step_print(
        self,
        work: usize,
        out: usize,
        raw: bool,
        incoming: Option<Value>,
    ) -> (HeapView, Stepped) {
        let h = match incoming {
            None => self,
            Some(v) => if raw {
                self.emit_answer(out, v)
            } else {
                self.render_print(work, out, v)
            },
        };
        h.drain(false, work, out)
    }

    /// The text of a scalar for `toString`. A float has none of its own.
    pub open spec fn coerce_scalar(self, v: Value) -> (HeapView, Result<Seq<char>, Fault>) {
        match v {
            Value::Str(s) => (self, Ok(self.text(s))),
            Value::Path(p) => (self, Ok(self.text(p))),
            Value::Int(n) => (self, Ok(int_text(n as int))),
            Value::Bool(b) => (
                self,
                Ok(
                    if b {
                        "1"@
                    } else {
                        ""@
                    },
                ),
            ),
            Value::Null => (self, Ok(""@)),
            _ => self.fail("cannot coerce "@ + type_text(v) + " to a string"@),
        }
    }

    pub open spec fn step_coerce(
        self,
        work: usize,
        out: usize,
        raw: bool,
        incoming: Option<Value>,
    ) -> (HeapView, Stepped) {
        match incoming {
            None => self.drain(true, work, out),
            Some(v) => if raw {
                self.emit_answer(out, v).drain(true, work, out)
            } else {
                match v {
                    Value::List(l) => {
                        let (h, q) = self.queue_spaced(self.list(l), 0, Seq::empty());
                        h.enqueue(work, q).drain(true, work, out)
                    },
                    Value::Float(x) => self.work_put(
                        work,
                        self.work(work).push(Item::Digits(x)),
                    ).drain(true, work, out),
                    _ => match self.coerce_scalar(v) {
                        (h, Err(e)) => (h, (walk_task(true, work, out, false), Err(e))),
                        (h, Ok(t)) => h.emit(out, t).drain(true, work, out),
                    },
                }
            },
        }
    }

    pub open spec fn print_task(self, v: Value) -> (HeapView, Task) {
        let (h, s) = self.value_slot(v);
        let (h, work) = h.new_work(seq![Item::Lazy(s)]);
        let (h, out) = h.new_text(Seq::empty());
        (h, Task::Print { work, out, raw: false })
    }

    pub open spec fn coerce_task(self, s: Slot) -> (HeapView, Task) {
        let (h, work) = self.new_work(seq![Item::Lazy(s)]);
        let (h, out) = h.new_text(Seq::empty());
        (h, Task::Coerce { work, out, raw: false })
    }
}

/// The printing walk or the coercing one.
pub open spec fn walk_task(coerce: bool, work: usize, out: usize, raw: bool) -> Task {
    if coerce {
        Task::Coerce { work, out, raw }
    } else {
        Task::Print { work, out, raw }
    }
}

fn make_walk(coerce: bool, work: usize, out: usize, raw: bool) -> (t: Task)
    ensures
        t == walk_task(coerce, work, out, raw),
{
    if coerce {
        Task::Coerce { work, out, raw }
    } else {
        Task::Print { work, out, raw }
    }
}

impl Heap {
    fn find_name_spot(&self, out: &Vec<(Sym, Slot)>, k: Sym) -> (r: usize)
        ensures
            r == self@.name_spot(out@, k, 0),
            r <= out.len(),
    {
        let name = self.sym_name(k);
        let mut i: usize = 0;
        while i < out.len()
            invariant
                i <= out.len(),
                name@ == self@.sym_name(k),
                self@.name_spot(out@, k, i as int) == self@.name_spot(out@, k, 0),
            decreases out.len() - i,
        {
            if order_texts(&name, &self.sym_name(out[i].0)) == Order::Less {
                return i;
            }
            i += 1;
        }
        i
    }

    /// The entries of a set ordered by name.
    pub fn by_name(&self, s: &Vec<(Sym, Slot)>) -> (r: Vec<(Sym, Slot)>)
        ensures
            r@ == self@.by_name(s@),
    {
        let mut out: Vec<(Sym, Slot)> = Vec::new();
        let mut i: usize = 0;
        while i < s.len()
            invariant
                i <= s.len(),
                out@ == self@.by_name(s@.take(i as int)),
            decreases s.len() - i,
        {
            proof {
                assert(s@.take(i + 1).drop_last() == s@.take(i as int));
            }
            let at = self.find_name_spot(&out, s[i].0);
            out.insert(at, s[i]);
            i += 1;
        }
        assert(s@.take(s.len() as int) == s@);
        out
    }

    fn queue_list(&mut self, items: &Vec<usize>) -> (q: Vec<Item>)
        ensures
            old(self)@.queue_list(items@, 0, Seq::empty()) == (final(self)@, q@),
    {
        let mut q: Vec<Item> = Vec::new();
        let mut i: usize = 0;
        while i < items.len()
            invariant
                i <= items.len(),
                self@.queue_list(items@, i as int, q@) == old(self)@.queue_list(
                    items@,
                    0,
                    Seq::empty(),
                ),
            decreases items.len() - i,
        {
            let t = self.new_text(text_of(" "));
            q.push(Item::Lit(t));
            q.push(Item::Lazy(items[i]));
            i += 1;
        }
        let t = self.new_text(text_of(" ]"));
        q.push(Item::Lit(t));
        q
    }

    fn queue_set(&mut self, entries: &Vec<(Sym, Slot)>) -> (q: Vec<Item>)
        ensures
            old(self)@.queue_set(entries@, 0, Seq::empty()) == (final(self)@, q@),
    {
        let mut q: Vec<Item> = Vec::new();
        let mut i: usize = 0;
        while i < entries.len()
            invariant
                i <= entries.len(),
                self@.queue_set(entries@, i as int, q@) == old(self)@.queue_set(
                    entries@,
                    0,
                    Seq::empty(),
                ),
            decreases entries.len() - i,
        {
            let mut lead = text_of(" ");
            let name = self.sym_name(entries[i].0);
            append_all(&mut lead, &print_attr_name(&name));
            append_str(&mut lead, " = ");
            let lead = self.new_text(lead);
            let end = self.new_text(text_of(";"));
            q.push(Item::Lit(lead));
            q.push(Item::Lazy(entries[i].1));
            q.push(Item::Lit(end));
            i += 1;
        }
        let t = self.new_text(text_of(" }"));
        q.push(Item::Lit(t));
        q
    }

    fn queue_spaced(&mut self, items: &Vec<usize>) -> (q: Vec<Item>)
        ensures
            old(self)@.queue_spaced(items@, 0, Seq::empty()) == (final(self)@, q@),
    {
        let mut q: Vec<Item> = Vec::new();
        let mut i: usize = 0;
        while i < items.len()
            invariant
                i <= items.len(),
                self@.queue_spaced(items@, i as int, q@) == old(self)@.queue_spaced(
                    items@,
                    0,
                    Seq::empty(),
                ),
            decreases items.len() - i,
        {
            if i > 0 {
                let t = self.new_text(text_of(" "));
                q.push(Item::Lit(t));
            }
            q.push(Item::Lazy(items[i]));
            i += 1;
        }
        q
    }

    pub fn emit(&mut self, out: usize, t: &Text)
        ensures
            final(self)@ == old(self)@.emit(out, t@),
    {
        self.text_append(out, t);
    }

    pub fn emit_str(&mut self, out: usize, t: &str)
        ensures
            final(self)@ == old(self)@.emit(out, t@),
    {
        self.text_append(out, &text_of(t));
    }

    pub fn enqueue(&mut self, work: usize, q: &Vec<Item>)
        ensures
            final(self)@ == old(self)@.enqueue(work, q@),
    {
        self.work_append(work, &reversed(q));
    }

    fn render_print(&mut self, work: usize, out: usize, v: Value)
        ensures
            final(self)@ == old(self)@.render_print(work, out, v),
    {
        match v {
            Value::Int(n) => {
                let mut t: Text = Vec::new();
                append_int(&mut t, n as i128);
                assert(t@ =~= int_text(n as int));
                self.emit(out, &t);
            },
            Value::Float(x) => self.work_push(work, Item::Digits(x)),
            Value::Bool(b) => self.emit_str(
                out,
                if b {
                    "true"
                } else {
                    "false"
                },
            ),
            Value::Null => self.emit_str(out, "null"),
            Value::Str(s) => {
                let t = print_string(&self.text(s));
                self.emit(out, &t);
            },
            Value::Path(p) => {
                let t = self.text(p);
                self.emit(out, &t);
            },
            Value::List(l) => {
                let items = self.list(l);
                if items.len() == 0 {
                    self.emit_str(out, "[ ]");
                } else {
                    self.emit_str(out, "[");
                    let q = self.queue_list(&items);
                    self.enqueue(work, &q);
                }
            },
            Value::Attrs(s) => {
                let set = self.set(s);
                if set.len() == 0 {
                    self.emit_str(out, "{ }");
                } else {
                    let entries = self.by_name(&set);
                    self.emit_str(out, "{");
                    let q = self.queue_set(&entries);
                    self.enqueue(work, &q);
                }
            },
            Value::Closure { .. } => self.emit_str(out, "<LAMBDA>"),
            Value::Builtin { args, .. } => {
                let n = self.list_len(args);
                self.emit_str(
                    out,
                    if n == 0 {
                        "<PRIMOP>"
                    } else {
                        "<PRIMOP-APP>"
                    },
                );
            },
        }
    }

    fn drain(&mut self, coerce: bool, work: usize, out: usize) -> (r: Stepped)
        ensures
            old(self)@.drain(coerce, work, out) == (final(self)@, r),
    {
        let mut left: usize = self.work_len(work);
        while left > 0
            invariant
                left == self@.work(work).len(),
                self@.drain(coerce, work, out) == old(self)@.drain(coerce, work, out),
            decreases left,
        {
            let item = self.work_pop(work);
            left -= 1;
            match item {
                Some(Item::Lit(t)) => {
                    let t = self.text(t);
                    self.emit(out, &t);
                },
                Some(Item::Digits(x)) => {
                    return (
                        make_walk(coerce, work, out, true),
                        Ok(Yield::Sub(new_float_task(FloatAsk::Show(x)))),
                    );
                },
                Some(Item::Lazy(s)) => {
                    return (make_walk(coerce, work, out, false), Ok(Yield::Force(s)));
                },
                _ => {
                    let r = self.fail_str("internal: print item lost");
                    return (make_walk(coerce, work, out, false), r);
                },
            }
        }
        (make_walk(coerce, work, out, false), Ok(Yield::Done(Value::Str(out))))
    }

    pub fn emit_answer(&mut self, out: usize, v: Value)
        ensures
            final(self)@ == old(self)@.emit_answer(out, v),
    {
        match v {
            Value::Str(t) => {
                let t = self.text(t);
                self.emit(out, &t);
            },
            _ => {},
        }
    }

    pub fn step_print(
        &mut self,
        work: usize,
        out: usize,
        raw: bool,
        incoming: Option<Value>,
    ) -> (r: Stepped)
        ensures
            old(self)@.step_print(work, out, raw, incoming) == (final(self)@, r),
    {
        match incoming {
            None => {},
            Some(v) => if raw {
                self.emit_answer(out, v);
            } else {
                self.render_print(work, out, v);
            },
        }
        self.drain(false, work, out)
    }

    pub fn coerce_scalar(&mut self, v: Value) -> (r: Result<Text, Fault>)
        ensures
            match r {
                Ok(t) => old(self)@.coerce_scalar(v) == (final(self)@, Ok::<Seq<char>, Fault>(t@)),
                Err(e) => old(self)@.coerce_scalar(v) == (final(self)@, Err::<Seq<char>, Fault>(e)),
            },
    {
        match v {
            Value::Str(s) => Ok(self.text(s)),
            Value::Path(p) => Ok(self.text(p)),
            Value::Int(n) => {
                let mut t: Text = Vec::new();
                append_int(&mut t, n as i128);
                assert(t@ =~= int_text(n as int));
                Ok(t)
            },
            Value::Bool(b) => Ok(
                text_of(
                    if b {
                        "1"
                    } else {
                        ""
                    },
                ),
            ),
            Value::Null => Ok(text_of("")),
            _ => self.fail_with("cannot coerce ", &text_of(kind_name(v)), " to a string"),
        }
    }

    pub fn step_coerce(
        &mut self,
        work: usize,
        out: usize,
        raw: bool,
        incoming: Option<Value>,
    ) -> (r: Stepped)
        ensures
            old(self)@.step_coerce(work, out, raw, incoming) == (final(self)@, r),
    {
        match incoming {
            None => {},
            Some(v) => if raw {
                self.emit_answer(out, v);
            } else {
                match v {
                    Value::List(l) => {
                        let items = self.list(l);
                        let q = self.queue_spaced(&items);
                        self.enqueue(work, &q);
                    },
                    Value::Float(x) => self.work_push(work, Item::Digits(x)),
                    _ => match self.coerce_scalar(v) {
                        Err(e) => {
                            return (make_walk(true, work, out, false), Err(e));
                        },
                        Ok(t) => self.emit(out, &t),
                    },
                }
            },
        }
        self.drain(true, work, out)
    }

    pub fn print_task(&mut self, v: Value) -> (t: Task)
        ensures
            old(self)@.print_task(v) == (final(self)@, t),
    {
        let s = self.value_slot(v);
        let mut w: Vec<Item> = Vec::new();
        w.push(Item::Lazy(s));
        assert(w@ =~= seq![Item::Lazy(s)]);
        let work = self.new_work(w);
        let out = self.new_text(Vec::new());
        Task::Print { work, out, raw: false }
    }

    pub fn coerce_task(&mut self, s: Slot) -> (t: Task)
        ensures
            old(self)@.coerce_task(s) == (final(self)@, t),
    {
        let mut w: Vec<Item> = Vec::new();
        w.push(Item::Lazy(s));
        assert(w@ =~= seq![Item::Lazy(s)]);
        let work = self.new_work(w);
        let out = self.new_text(Vec::new());
        Task::Coerce { work, out, raw: false }
    }
}

} // verus!
