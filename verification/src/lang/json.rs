//! `toJSON`: writing a value as JSON, as a resumable walk.
use crate::lang::conts::Walked;
use crate::lang::frames::{Await, Begin, Cont, FloatAsk, Yield};
use crate::lang::heap::{Fault, Heap, HeapView, Item, Slot, Sym, Value};
use crate::lang::lists::Started;
use crate::lang::ops::{kind_name, type_text};
use crate::lang::quote::{json_quoted, json_string};
use crate::lang::walks::{float_task, new_float_task};
use crate::text::{append_all, append_int, append_str, int_text, text_of, Text};
use vstd::prelude::*;

verus! {

/// How deep a value may nest before writing it is refused.
pub const MAX_DEPTH: usize = 10_000;

impl HeapView {
    pub open spec fn bi_to_json(self, args: usize) -> Started {
        match self.arg(args, 0) {
            (h, Err(e)) => (h, Err(e)),
            (h, Ok(root)) => {
                let (h, work) = h.new_work(seq![Item::Deep(root, 0)]);
                let (h, out) = h.new_text(Seq::empty());
                (h, Ok(Begin::Cont(Cont::ToJson { work, out, awaiting: Await::Depth(0) })))
            },
        }
    }

    /// Queues the elements of a list, commas between, and a closing bracket.
    pub open spec fn json_items(self, items: Seq<usize>, d: usize, i: int, q: Seq<Item>) -> (
        HeapView,
        Seq<Item>,
    )
        decreases items.len() - i,
    {
        if i >= items.len() {
            let (h, t) = self.new_text("]"@);
            (h, q.push(Item::Lit(t)))
        } else if i == 0 {
            self.json_items(items, d, 1, q.push(Item::Deep(items[0], d)))
        } else {
            let (h, t) = self.new_text(","@);
            h.json_items(items, d, i + 1, q.push(Item::Lit(t)).push(Item::Deep(items[i], d)))
        }
    }

    /// Queues the members of an object and a closing brace.
    pub open spec fn json_members(
        self,
        entries: Seq<(Sym, Slot)>,
        d: usize,
        i: int,
        q: Seq<Item>,
    ) -> (HeapView, Seq<Item>)
        decreases entries.len() - i,
    {
        if i >= entries.len() {
            let (h, t) = self.new_text("}"@);
            (h, q.push(Item::Lit(t)))
        } else {
            let comma = if i > 0 {
                ","@
            } else {
                ""@
            };
            let (h, lead) = self.new_text(
                comma + json_quoted(self.sym_name(entries[i].0)) + ":"@,
            );
            h.json_members(
                entries,
                d,
                i + 1,
                q.push(Item::Lit(lead)).push(Item::Deep(entries[i].1, d)),
            )
        }
    }

    /// Takes queued items until something has to be evaluated.
    pub open spec fn json_drain(self, work: usize, out: usize) -> (HeapView, Walked)
        decreases self.work(work).len(),
    {
        let idle = Cont::ToJson { work, out, awaiting: Await::Depth(0) };
        let w = self.work(work);
        if w.len() == 0 {
            (self, (idle, Ok(Yield::Done(Value::Str(out)))))
        } else {
            let h = self.work_put(work, w.drop_last());
            match w.last() {
                Item::Lit(t) => h.emit(out, h.text(t)).json_drain(work, out),
                Item::Deep(s, d) => (
                    h,
                    (Cont::ToJson { work, out, awaiting: Await::Depth(d) }, Ok(Yield::Force(s))),
                ),
                _ => h.stop(idle, "internal: json item lost"@),
            }
        }
    }

    /// Writes the outermost layer of a value at depth `d`.
    pub open spec fn json_render(self, work: usize, out: usize, v: Value, d: usize) -> (
        HeapView,
        Walked,
    ) {
        let idle = Cont::ToJson { work, out, awaiting: Await::Depth(0) };
        if d > MAX_DEPTH {
            self.stop(idle, "stack overflow; max-call-depth exceeded"@)
        } else {
            let deeper = (d + 1) as usize;
            match v {
                Value::Int(n) => self.emit(out, int_text(n as int)).json_drain(work, out),
                Value::Float(x) => (
                    self,
                    (
                        Cont::ToJson { work, out, awaiting: Await::Digits },
                        Ok(Yield::Sub(float_task(FloatAsk::Json(x)))),
                    ),
                ),
                Value::Bool(b) => self.emit(
                    out,
                    if b {
                        "true"@
                    } else {
                        "false"@
                    },
                ).json_drain(work, out),
                Value::Null => self.emit(out, "null"@).json_drain(work, out),
                Value::Str(s) => self.emit(out, json_quoted(self.text(s))).json_drain(work, out),
                Value::Path(_) => {
                    let (h, r) = self.missing::<Yield>(
                        "builtins.toJSON of a path (cppnix copies it to the store)"@,
                    );
                    (h, (idle, r))
                },
                Value::List(l) => {
                    let (h, q) = self.emit(out, "["@).json_items(
                        self.list(l),
                        deeper,
                        0,
                        Seq::empty(),
                    );
                    h.enqueue(work, q).json_drain(work, out)
                },
                Value::Attrs(m) => match self.attr(m, "__toString"@) {
                    (h, Some(f)) => (
                        h,
                        (
                            Cont::ToJson { work, out, awaiting: Await::ToStrFn(v) },
                            Ok(Yield::Force(f)),
                        ),
                    ),
                    (h, None) => match h.attr(m, "outPath"@) {
                        (h, Some(p)) => h.work_put(
                            work,
                            h.work(work).push(Item::Deep(p, deeper)),
                        ).json_drain(work, out),
                        (h, None) => {
                            let entries = h.by_name(h.set(m));
                            let (h, q) = h.emit(out, "{"@).json_members(
                                entries,
                                deeper,
                                0,
                                Seq::empty(),
                            );
                            h.enqueue(work, q).json_drain(work, out)
                        },
                    },
                },
                _ => self.stop(idle, "cannot convert "@ + type_text(v) + " to JSON"@),
            }
        }
    }

    pub open spec fn step_to_json(
        self,
        work: usize,
        out: usize,
        awaiting: Await,
        incoming: Option<Value>,
    ) -> (HeapView, Walked) {
        let idle = Cont::ToJson { work, out, awaiting: Await::Depth(0) };
        match incoming {
            None => self.json_drain(work, out),
            Some(v) => match awaiting {
                Await::Depth(d) => self.json_render(work, out, v, d),
                Await::Digits => self.emit_answer(out, v).json_drain(work, out),
                Await::ToStrFn(attrs) => {
                    let (h, s) = self.value_slot(attrs);
                    (
                        h,
                        (
                            Cont::ToJson { work, out, awaiting: Await::ToStrResult },
                            Ok(Yield::Apply(v, s)),
                        ),
                    )
                },
                Await::ToStrResult => match self.coerce_interpolated(v) {
                    (h, Err(e)) => (h, (idle, Err(e))),
                    (h, Ok(t)) => h.emit(out, json_quoted(h.text(t))).json_drain(work, out),
                },
            },
        }
    }
}

impl Heap {
    pub fn bi_to_json(&mut self, args: usize) -> (r: Result<Begin, Fault>)
        ensures
            old(self)@.bi_to_json(args) == (final(self)@, r),
    {
        match self.arg(args, 0) {
            Err(e) => Err(e),
            Ok(root) => {
                let mut w: Vec<Item> = Vec::new();
                w.push(Item::Deep(root, 0));
                assert(w@ =~= seq![Item::Deep(root, 0)]);
                let work = self.new_work(w);
                let out = self.new_text(Vec::new());
                Ok(Begin::Cont(Cont::ToJson { work, out, awaiting: Await::Depth(0) }))
            },
        }
    }

    fn json_items(&mut self, items: &Vec<usize>, d: usize) -> (q: Vec<Item>)
        ensures
            old(self)@.json_items(items@, d, 0, Seq::empty()) == (final(self)@, q@),
    {
        let mut q: Vec<Item> = Vec::new();
        let mut i: usize = 0;
        while i < items.len()
            invariant
                i <= items.len(),
                self@.json_items(items@, d, i as int, q@) == old(self)@.json_items(
                    items@,
                    d,
                    0,
                    Seq::empty(),
                ),
            decreases items.len() - i,
        {
            if i > 0 {
                let t = self.new_text(text_of(","));
                q.push(Item::Lit(t));
            }
            q.push(Item::Deep(items[i], d));
            i += 1;
        }
        let t = self.new_text(text_of("]"));
        q.push(Item::Lit(t));
        q
    }

    fn json_members(&mut self, entries: &Vec<(Sym, Slot)>, d: usize) -> (q: Vec<Item>)
        ensures
            old(self)@.json_members(entries@, d, 0, Seq::empty()) == (final(self)@, q@),
    {
        let mut q: Vec<Item> = Vec::new();
        let mut i: usize = 0;
        while i < entries.len()
            invariant
                i <= entries.len(),
                self@.json_members(entries@, d, i as int, q@) == old(self)@.json_members(
                    entries@,
                    d,
                    0,
                    Seq::empty(),
                ),
            decreases entries.len() - i,
        {
            let mut lead = text_of(
                if i > 0 {
                    ","
                } else {
                    ""
                },
            );
            let name = self.sym_name(entries[i].0);
            append_all(&mut lead, &json_string(&name));
            append_str(&mut lead, ":");
            let lead = self.new_text(lead);
            q.push(Item::Lit(lead));
            q.push(Item::Deep(entries[i].1, d));
            i += 1;
        }
        let t = self.new_text(text_of("}"));
        q.push(Item::Lit(t));
        q
    }

    fn json_drain(&mut self, work: usize, out: usize) -> (r: Walked)
        ensures
            old(self)@.json_drain(work, out) == (final(self)@, r),
    {
        let idle = Cont::ToJson { work, out, awaiting: Await::Depth(0) };
        let mut left: usize = self.work_len(work);
        while left > 0
            invariant
                left == self@.work(work).len(),
                idle == (Cont::ToJson { work, out, awaiting: Await::Depth(0) }),
                self@.json_drain(work, out) == old(self)@.json_drain(work, out),
            decreases left,
        {
            let item = self.work_pop(work);
            left -= 1;
            match item {
                Some(Item::Lit(t)) => {
                    let t = self.text(t);
                    self.emit(out, &t);
                },
                Some(Item::Deep(s, d)) => {
                    return (
                        Cont::ToJson { work, out, awaiting: Await::Depth(d) },
                        Ok(Yield::Force(s)),
                    );
                },
                _ => {
                    return self.stop(idle, "internal: json item lost");
                },
            }
        }
        (idle, Ok(Yield::Done(Value::Str(out))))
    }

    fn json_render(&mut self, work: usize, out: usize, v: Value, d: usize) -> (r: Walked)
        ensures
            old(self)@.json_render(work, out, v, d) == (final(self)@, r),
    {
        let idle = Cont::ToJson { work, out, awaiting: Await::Depth(0) };
        if d > MAX_DEPTH {
            return self.stop(idle, "stack overflow; max-call-depth exceeded");
        }
        let deeper = d + 1;
        match v {
            Value::Int(n) => {
                let mut t: Text = Vec::new();
                append_int(&mut t, n as i128);
                assert(t@ =~= int_text(n as int));
                self.emit(out, &t);
                self.json_drain(work, out)
            },
            Value::Float(x) => (
                Cont::ToJson { work, out, awaiting: Await::Digits },
                Ok(Yield::Sub(new_float_task(FloatAsk::Json(x)))),
            ),
            Value::Bool(b) => {
                self.emit_str(
                    out,
                    if b {
                        "true"
                    } else {
                        "false"
                    },
                );
                self.json_drain(work, out)
            },
            Value::Null => {
                self.emit_str(out, "null");
                self.json_drain(work, out)
            },
            Value::Str(s) => {
                let t = json_string(&self.text(s));
                self.emit(out, &t);
                self.json_drain(work, out)
            },
            Value::Path(_) => {
                let r = self.missing(
                    text_of("builtins.toJSON of a path (cppnix copies it to the store)"),
                );
                (idle, r)
            },
            Value::List(l) => {
                let items = self.list(l);
                self.emit_str(out, "[");
                let q = self.json_items(&items, deeper);
                self.enqueue(work, &q);
                self.json_drain(work, out)
            },
            Value::Attrs(m) => {
                match self.attr(m, "__toString") {
                    Some(f) => {
                        return (
                            Cont::ToJson { work, out, awaiting: Await::ToStrFn(v) },
                            Ok(Yield::Force(f)),
                        );
                    },
                    None => {},
                }
                match self.attr(m, "outPath") {
                    Some(p) => {
                        self.work_push(work, Item::Deep(p, deeper));
                        return self.json_drain(work, out);
                    },
                    None => {},
                }
                let entries = self.by_name(&self.set(m));
                self.emit_str(out, "{");
                let q = self.json_members(&entries, deeper);
                self.enqueue(work, &q);
                self.json_drain(work, out)
            },
            _ => {
                let r = self.fail_with("cannot convert ", &text_of(kind_name(v)), " to JSON");
                (idle, r)
            },
        }
    }

    pub fn step_to_json(
        &mut self,
        work: usize,
        out: usize,
        awaiting: Await,
        incoming: Option<Value>,
    ) -> (r: Walked)
        ensures
            old(self)@.step_to_json(work, out, awaiting, incoming) == (final(self)@, r),
    {
        let idle = Cont::ToJson { work, out, awaiting: Await::Depth(0) };
        match incoming {
            None => self.json_drain(work, out),
            Some(v) => match awaiting {
                Await::Depth(d) => self.json_render(work, out, v, d),
                Await::Digits => {
                    self.emit_answer(out, v);
                    self.json_drain(work, out)
                },
                Await::ToStrFn(attrs) => {
                    let s = self.value_slot(attrs);
                    (
                        Cont::ToJson { work, out, awaiting: Await::ToStrResult },
                        Ok(Yield::Apply(v, s)),
                    )
                },
                Await::ToStrResult => match self.coerce_interpolated(v) {
                    Err(e) => (idle, Err(e)),
                    Ok(t) => {
                        let t = json_string(&self.text(t));
                        self.emit(out, &t);
                        self.json_drain(work, out)
                    },
                },
            },
        }
    }
}

} // verus!
