//! The continuations that the machine drives for builtins which must
//! evaluate more of the program: each is handed one forced value or one
//! application result at a time.
use crate::lang::frames::{Cont, Finish, Need, Yield};
use crate::lang::heap::{
    bind, lookup, unbind, EnvNode, Fault, HeapView, Item, Slot, SlotState, Sym, Value,
};
use crate::lang::quote::{plan_from, uses, PieceView};
use crate::lang::strings::joined;
use crate::lang::walks::slots_of;
use vstd::prelude::*;

verus! {

/// A continuation as it now stands, and what it wants.
pub type Walked = (Cont, Result<Yield, Fault>);

/// One position further, where there is one.
pub open spec fn bump(i: usize) -> usize {
    if i < usize::MAX {
        (i + 1) as usize
    } else {
        i
    }
}

pub fn bumped(i: usize) -> (r: usize)
    ensures
        r == bump(i),
{
    if i < usize::MAX {
        i + 1
    } else {
        i
    }
}

/// The value an item holds.
pub open spec fn item_value(it: Item) -> Value {
    match it {
        Item::Val(v) => v,
        _ => Value::Null,
    }
}

pub fn value_in(it: Item) -> (v: Value)
    ensures
        v == item_value(it),
{
    match it {
        Item::Val(v) => v,
        _ => Value::Null,
    }
}

/// Whether a slot has been marked as visited.
pub open spec fn is_marked(l: Seq<usize>, s: Slot) -> bool {
    s < l.len() && l[s as int] == 1
}

/// The marks with one more slot marked.
pub open spec fn marked(l: Seq<usize>, s: Slot) -> Seq<usize> {
    let n = if s < l.len() {
        l.len()
    } else {
        (s + 1) as nat
    };
    Seq::new(
        n,
        |i: int|
            if i == s {
                1usize
            } else if i < l.len() {
                l[i]
            } else {
                0usize
            },
    )
}

impl HeapView {
    /// A failure that leaves the continuation as it is.
    pub open spec fn stop(self, c: Cont, msg: Seq<char>) -> (HeapView, Walked) {
        let (h, r) = self.fail::<Yield>(msg);
        (h, (c, r))
    }

    /// Hands back the incoming value, or fails where there is none.
    pub open spec fn hand_back(self, c: Cont, incoming: Option<Value>, lost: Seq<char>) -> (
        HeapView,
        Walked,
    ) {
        match incoming {
            Some(v) => (self, (c, Ok(Yield::Done(v)))),
            None => self.stop(c, lost),
        }
    }

    /// Applies `f` to element `i`, or is done where there is none.
    pub open spec fn apply_next(self, c: Cont, f: Value, items: usize, i: usize, done: Value) -> (
        HeapView,
        Walked,
    ) {
        if i >= self.list(items).len() {
            (self, (c, Ok(Yield::Done(done))))
        } else {
            (self, (c, Ok(Yield::Apply(f, self.list(items)[i as int]))))
        }
    }

    pub open spec fn push_list(self, id: usize, x: usize) -> HeapView {
        self.list_put(id, self.list(id).push(x))
    }

    pub open spec fn step_filter(
        self,
        f: Value,
        items: usize,
        i: usize,
        out: usize,
        incoming: Option<Value>,
    ) -> (HeapView, Walked) {
        let c = Cont::Filter { f, items, i, out };
        match incoming {
            None => self.apply_next(c, f, items, i, Value::List(out)),
            Some(v) => match self.want_bool(v) {
                (h, Err(e)) => (h, (c, Err(e))),
                (h, Ok(keep)) => match h.nth(items, i) {
                    (h, Err(e)) => (h, (c, Err(e))),
                    (h, Ok(s)) => {
                        let h = if keep {
                            h.push_list(out, s)
                        } else {
                            h
                        };
                        let j = bump(i);
                        h.apply_next(
                            Cont::Filter { f, items, i: j, out },
                            f,
                            items,
                            j,
                            Value::List(out),
                        )
                    },
                },
            },
        }
    }

    pub open spec fn step_any_all(
        self,
        f: Value,
        items: usize,
        i: usize,
        want: bool,
        incoming: Option<Value>,
    ) -> (HeapView, Walked) {
        let c = Cont::AnyAll { f, items, i, want };
        match incoming {
            None => self.apply_next(c, f, items, i, Value::Bool(!want)),
            Some(v) => match self.want_bool(v) {
                (h, Err(e)) => (h, (c, Err(e))),
                (h, Ok(b)) => if b == want {
                    (h, (c, Ok(Yield::Done(Value::Bool(want)))))
                } else {
                    let j = bump(i);
                    h.apply_next(
                        Cont::AnyAll { f, items, i: j, want },
                        f,
                        items,
                        j,
                        Value::Bool(!want),
                    )
                },
            },
        }
    }

    pub open spec fn step_concat_map(
        self,
        f: Value,
        items: usize,
        i: usize,
        out: usize,
        incoming: Option<Value>,
    ) -> (HeapView, Walked) {
        let c = Cont::ConcatMap { f, items, i, out };
        match incoming {
            None => self.apply_next(c, f, items, i, Value::List(out)),
            Some(v) => match self.want_list(v) {
                (h, Err(e)) => (h, (c, Err(e))),
                (h, Ok(l)) => {
                    let j = bump(i);
                    h.list_put(out, h.list(out) + h.list(l)).apply_next(
                        Cont::ConcatMap { f, items, i: j, out },
                        f,
                        items,
                        j,
                        Value::List(out),
                    )
                },
            },
        }
    }

    /// The next application of a fold, or its result.
    pub open spec fn fold_next(self, f: Value, items: usize, i: usize, acc: Slot) -> (
        HeapView,
        Walked,
    ) {
        let c = Cont::Foldl { f, items, i, acc, half: false, finishing: false };
        if i >= self.list(items).len() {
            // The initial accumulator is never forced by the fold itself.
            match self.peek(acc) {
                Some(v) => (self, (c, Ok(Yield::Done(v)))),
                None => (
                    self,
                    (
                        Cont::Foldl { f, items, i, acc, half: false, finishing: true },
                        Ok(Yield::Force(acc)),
                    ),
                ),
            }
        } else {
            (self, (c, Ok(Yield::Apply(f, acc))))
        }
    }

    pub open spec fn step_foldl(
        self,
        f: Value,
        items: usize,
        i: usize,
        acc: Slot,
        half: bool,
        finishing: bool,
        incoming: Option<Value>,
    ) -> (HeapView, Walked) {
        let c = Cont::Foldl { f, items, i, acc, half, finishing };
        if finishing {
            self.hand_back(c, incoming, "internal: foldl' lost its accumulator"@)
        } else {
            match incoming {
                None => self.fold_next(f, items, i, acc),
                Some(v) => if !half {
                    let c = Cont::Foldl { f, items, i, acc, half: true, finishing };
                    match self.nth(items, i) {
                        (h, Err(e)) => (h, (c, Err(e))),
                        (h, Ok(s)) => (h, (c, Ok(Yield::Apply(v, s)))),
                    }
                } else {
                    let (h, acc) = self.value_slot(v);
                    h.fold_next(f, items, bump(i), acc)
                },
            }
        }
    }

    /// The next comparison of an insertion sort. An element that has been
    /// held against every sorted one goes last, and the next one is taken.
    pub open spec fn sort_next(
        self,
        f: Value,
        items: usize,
        next: usize,
        sorted: usize,
        probe: usize,
    ) -> (HeapView, Walked) {
        if next >= self.list(items).len() {
            self.apply_next(
                Cont::Sort { f, items, next, sorted, probe, half: false },
                f,
                items,
                next,
                Value::List(sorted),
            )
        } else if probe >= self.list(sorted).len() {
            let n = bump(next);
            self.push_list(sorted, self.list(items)[next as int]).apply_next(
                Cont::Sort { f, items, next: n, sorted, probe: 0, half: false },
                f,
                items,
                n,
                Value::List(sorted),
            )
        } else {
            self.apply_next(
                Cont::Sort { f, items, next, sorted, probe, half: false },
                f,
                items,
                next,
                Value::List(sorted),
            )
        }
    }

    pub open spec fn step_sort(
        self,
        f: Value,
        items: usize,
        next: usize,
        sorted: usize,
        probe: usize,
        half: bool,
        incoming: Option<Value>,
    ) -> (HeapView, Walked) {
        let c = Cont::Sort { f, items, next, sorted, probe, half };
        match incoming {
            None => self.sort_next(f, items, next, sorted, probe),
            Some(v) => if !half {
                let c = Cont::Sort { f, items, next, sorted, probe, half: true };
                match self.nth(sorted, probe) {
                    (h, Err(e)) => (h, (c, Err(e))),
                    (h, Ok(s)) => (h, (c, Ok(Yield::Apply(v, s)))),
                }
            } else {
                match self.want_bool(v) {
                    (h, Err(e)) => (h, (c, Err(e))),
                    (h, Ok(less)) => if !less {
                        h.sort_next(f, items, next, sorted, bump(probe))
                    } else {
                        match h.nth(items, next) {
                            (h, Err(e)) => (h, (c, Err(e))),
                            (h, Ok(item)) => if probe > h.list(sorted).len() {
                                h.stop(c, "internal: list position lost"@)
                            } else {
                                h.list_put(
                                    sorted,
                                    h.list(sorted).insert(probe as int, item),
                                ).sort_next(f, items, bump(next), sorted, 0)
                            },
                        }
                    },
                }
            },
        }
    }

    /// Adds an element to the list its key is bound to.
    pub open spec fn group_add(self, groups: Seq<(Sym, Slot)>, k: Sym, s: Slot) -> (
        HeapView,
        Seq<(Sym, Slot)>,
    ) {
        match lookup(groups, k) {
            Some(l) => (self.push_list(l, s), groups),
            None => {
                let (h, l) = self.new_list(seq![s]);
                (h, bind(groups, k, l))
            },
        }
    }

    /// Each group as a list value in a slot.
    pub open spec fn group_slots(self, groups: Seq<(Sym, Slot)>, i: int, out: Seq<(Sym, Slot)>) -> (
        HeapView,
        Seq<(Sym, Slot)>,
    )
        decreases groups.len() - i,
    {
        if i >= groups.len() {
            (self, out)
        } else {
            let (h, s) = self.value_slot(Value::List(groups[i].1));
            h.group_slots(groups, i + 1, out.push((groups[i].0, s)))
        }
    }

    pub open spec fn group_next(self, f: Value, items: usize, i: usize, out: usize) -> (
        HeapView,
        Walked,
    ) {
        let c = Cont::GroupBy { f, items, i, out };
        if i >= self.list(items).len() {
            let (h, s) = self.group_slots(self.set(out), 0, Seq::empty());
            let (h, v) = h.attrs_value(s);
            (h, (c, Ok(Yield::Done(v))))
        } else {
            (self, (c, Ok(Yield::Apply(f, self.list(items)[i as int]))))
        }
    }

    pub open spec fn step_group_by(
        self,
        f: Value,
        items: usize,
        i: usize,
        out: usize,
        incoming: Option<Value>,
    ) -> (HeapView, Walked) {
        let c = Cont::GroupBy { f, items, i, out };
        match incoming {
            None => self.group_next(f, items, i, out),
            Some(v) => match self.want_str(v) {
                (h, Err(e)) => (h, (c, Err(e))),
                (h, Ok(t)) => {
                    let (h, k) = h.intern(h.text(t));
                    match h.nth(items, i) {
                        (h, Err(e)) => (h, (c, Err(e))),
                        (h, Ok(s)) => {
                            let (h, groups) = h.group_add(h.set(out), k, s);
                            h.set_put(out, groups).group_next(f, items, bump(i), out)
                        },
                    }
                },
            },
        }
    }

    pub open spec fn partition_next(
        self,
        f: Value,
        items: usize,
        i: usize,
        right: usize,
        wrong: usize,
    ) -> (HeapView, Walked) {
        let c = Cont::Partition { f, items, i, right, wrong };
        if i >= self.list(items).len() {
            let (h, r) = self.intern("right"@);
            let (h, rs) = h.value_slot(Value::List(right));
            let (h, w) = h.intern("wrong"@);
            let (h, ws) = h.value_slot(Value::List(wrong));
            let (h, v) = h.attrs_value(bind(bind(Seq::empty(), r, rs), w, ws));
            (h, (c, Ok(Yield::Done(v))))
        } else {
            (self, (c, Ok(Yield::Apply(f, self.list(items)[i as int]))))
        }
    }

    pub open spec fn step_partition(
        self,
        f: Value,
        items: usize,
        i: usize,
        right: usize,
        wrong: usize,
        incoming: Option<Value>,
    ) -> (HeapView, Walked) {
        let c = Cont::Partition { f, items, i, right, wrong };
        match incoming {
            None => self.partition_next(f, items, i, right, wrong),
            Some(v) => match self.want_bool(v) {
                (h, Err(e)) => (h, (c, Err(e))),
                (h, Ok(b)) => match h.nth(items, i) {
                    (h, Err(e)) => (h, (c, Err(e))),
                    (h, Ok(s)) => h.push_list(
                        if b {
                            right
                        } else {
                            wrong
                        },
                        s,
                    ).partition_next(f, items, bump(i), right, wrong),
                },
            },
        }
    }

    pub open spec fn step_elem(self, x: Slot, items: usize, i: usize, incoming: Option<Value>) -> (
        HeapView,
        Walked,
    ) {
        let j = if incoming is Some {
            bump(i)
        } else {
            i
        };
        let c = Cont::Elem { x, items, i: j };
        if incoming == Some(Value::Bool(true)) {
            (self, (Cont::Elem { x, items, i }, Ok(Yield::Done(Value::Bool(true)))))
        } else if j >= self.list(items).len() {
            (self, (c, Ok(Yield::Done(Value::Bool(false)))))
        } else {
            let (h, t) = self.deep_eq_slots(x, self.list(items)[j as int], false);
            (h, (c, Ok(Yield::Sub(t))))
        }
    }

    // -- finishing a list of forced values -----------------------------------

    pub open spec fn concat_from(self, vals: Seq<Item>, i: int, out: Seq<usize>) -> (
        HeapView,
        Result<Seq<usize>, Fault>,
    )
        decreases vals.len() - i,
    {
        if i >= vals.len() {
            (self, Ok(out))
        } else {
            match self.want_list(item_value(vals[i])) {
                (h, Err(e)) => (h, Err(e)),
                (h, Ok(l)) => h.concat_from(vals, i + 1, out + h.list(l)),
            }
        }
    }

    pub open spec fn remove_from(self, vals: Seq<Item>, i: int, out: Seq<(Sym, Slot)>) -> (
        HeapView,
        Result<Seq<(Sym, Slot)>, Fault>,
    )
        decreases vals.len() - i,
    {
        if i >= vals.len() {
            (self, Ok(out))
        } else {
            match self.want_str(item_value(vals[i])) {
                (h, Err(e)) => (h, Err(e)),
                (h, Ok(t)) => {
                    let (h, k) = h.intern(h.text(t));
                    h.remove_from(vals, i + 1, unbind(out, k))
                },
            }
        }
    }

    pub open spec fn cat_from(self, vals: Seq<Item>, k: Sym, i: int, out: Seq<usize>) -> (
        HeapView,
        Result<Seq<usize>, Fault>,
    )
        decreases vals.len() - i,
    {
        if i >= vals.len() {
            (self, Ok(out))
        } else {
            match self.want_attrs(item_value(vals[i])) {
                (h, Err(e)) => (h, Err(e)),
                (h, Ok(m)) => h.cat_from(
                    vals,
                    k,
                    i + 1,
                    match lookup(h.set(m), k) {
                        Some(s) => out.push(s),
                        None => out,
                    },
                ),
            }
        }
    }

    pub open spec fn texts_from(self, vals: Seq<Item>, i: int, out: Seq<Seq<char>>) -> (
        HeapView,
        Result<Seq<Seq<char>>, Fault>,
    )
        decreases vals.len() - i,
    {
        if i >= vals.len() {
            (self, Ok(out))
        } else {
            match self.coerce_interpolated(item_value(vals[i])) {
                (h, Err(e)) => (h, Err(e)),
                (h, Ok(t)) => h.texts_from(vals, i + 1, out.push(h.text(t))),
            }
        }
    }

    /// Adds every entry of one set to the groups.
    pub open spec fn zip_entries(
        self,
        m: Seq<(Sym, Slot)>,
        j: int,
        groups: Seq<(Sym, Slot)>,
    ) -> (HeapView, Seq<(Sym, Slot)>)
        decreases m.len() - j,
    {
        if j >= m.len() {
            (self, groups)
        } else {
            let (h, g) = self.group_add(groups, m[j].0, m[j].1);
            h.zip_entries(m, j + 1, g)
        }
    }

    pub open spec fn zip_from(self, vals: Seq<Item>, i: int, groups: Seq<(Sym, Slot)>) -> (
        HeapView,
        Result<Seq<(Sym, Slot)>, Fault>,
    )
        decreases vals.len() - i,
    {
        if i >= vals.len() {
            (self, Ok(groups))
        } else {
            match self.want_attrs(item_value(vals[i])) {
                (h, Err(e)) => (h, Err(e)),
                (h, Ok(m)) => {
                    let (h, g) = h.zip_entries(h.set(m), 0, groups);
                    h.zip_from(vals, i + 1, g)
                },
            }
        }
    }

    /// One unperformed application of `f` to a name and its values per group.
    pub open spec fn zip_slots(
        self,
        f: Value,
        groups: Seq<(Sym, Slot)>,
        i: int,
        out: Seq<(Sym, Slot)>,
    ) -> (HeapView, Seq<(Sym, Slot)>)
        decreases groups.len() - i,
    {
        if i >= groups.len() {
            (self, out)
        } else {
            let (h, name) = self.str_slot(self.sym_name(groups[i].0));
            let (h, vals) = h.value_slot(Value::List(groups[i].1));
            let (h, s) = h.pending_slot(f, seq![name, vals]);
            h.zip_slots(f, groups, i + 1, out.push((groups[i].0, s)))
        }
    }

    pub open spec fn finish(self, finish: Finish, vals: Seq<Item>, args: usize) -> (
        HeapView,
        Result<Value, Fault>,
    ) {
        match finish {
            Finish::ConcatLists => match self.concat_from(vals, 0, Seq::empty()) {
                (h, Err(e)) => (h, Err(e)),
                (h, Ok(l)) => {
                    let (h, v) = h.list_value(l);
                    (h, Ok(v))
                },
            },
            Finish::RemoveAttrs => match self.arg_attrs(args, 0) {
                (h, Err(e)) => (h, Err(e)),
                (h, Ok(m)) => match h.remove_from(vals, 0, h.set(m)) {
                    (h, Err(e)) => (h, Err(e)),
                    (h, Ok(s)) => {
                        let (h, v) = h.attrs_value(s);
                        (h, Ok(v))
                    },
                },
            },
            Finish::CatAttrs => match self.arg_str(args, 0) {
                (h, Err(e)) => (h, Err(e)),
                (h, Ok(t)) => {
                    let (h, k) = h.intern(h.text(t));
                    match h.cat_from(vals, k, 0, Seq::empty()) {
                        (h, Err(e)) => (h, Err(e)),
                        (h, Ok(l)) => {
                            let (h, v) = h.list_value(l);
                            (h, Ok(v))
                        },
                    }
                },
            },
            Finish::ConcatSep => match self.arg_str(args, 0) {
                (h, Err(e)) => (h, Err(e)),
                (h, Ok(sep)) => match h.texts_from(vals, 0, Seq::empty()) {
                    (h, Err(e)) => (h, Err(e)),
                    (h, Ok(parts)) => {
                        let (h, v) = h.str_value(joined(parts, h.text(sep)));
                        (h, Ok(v))
                    },
                },
            },
            Finish::ZipAttrs => match self.argv(args, 0) {
                (h, Err(e)) => (h, Err(e)),
                (h, Ok(f)) => match h.zip_from(vals, 0, Seq::empty()) {
                    (h, Err(e)) => (h, Err(e)),
                    (h, Ok(groups)) => {
                        let (h, out) = h.zip_slots(f, groups, 0, Seq::empty());
                        let (h, v) = h.attrs_value(out);
                        (h, Ok(v))
                    },
                },
            },
        }
    }

    pub open spec fn step_force_each(
        self,
        items: usize,
        i: usize,
        vals: usize,
        finish: Finish,
        args: usize,
        incoming: Option<Value>,
    ) -> (HeapView, Walked) {
        let (h, j) = match incoming {
            Some(v) => (self.work_put(vals, self.work(vals).push(Item::Val(v))), bump(i)),
            None => (self, i),
        };
        let c = Cont::ForceEach { items, i: j, vals, finish };
        if j >= h.list(items).len() {
            match h.finish(finish, h.work(vals), args) {
                (h, Err(e)) => (h, (c, Err(e))),
                (h, Ok(v)) => (h, (c, Ok(Yield::Done(v)))),
            }
        } else {
            (h, (c, Ok(Yield::Force(h.list(items)[j as int]))))
        }
    }

    // -- listToAttrs ---------------------------------------------------------

    pub open spec fn list_to_attrs_next(
        self,
        items: usize,
        i: usize,
        out: usize,
        name_sym: Sym,
        value_sym: Sym,
    ) -> (HeapView, Walked) {
        let c = Cont::ListToAttrs { items, i, out, cur: None, name_sym, value_sym };
        if i >= self.list(items).len() {
            (self, (c, Ok(Yield::Done(Value::Attrs(out)))))
        } else {
            (self, (c, Ok(Yield::Force(self.list(items)[i as int]))))
        }
    }

    pub open spec fn step_list_to_attrs(
        self,
        items: usize,
        i: usize,
        out: usize,
        cur: Option<usize>,
        name_sym: Sym,
        value_sym: Sym,
        incoming: Option<Value>,
    ) -> (HeapView, Walked) {
        let c = Cont::ListToAttrs { items, i, out, cur: None, name_sym, value_sym };
        match (incoming, cur) {
            (None, _) => self.list_to_attrs_next(items, i, out, name_sym, value_sym),
            (Some(v), None) => match self.want_attrs(v) {
                (h, Err(e)) => (h, (c, Err(e))),
                (h, Ok(m)) => match lookup(h.set(m), name_sym) {
                    None => h.stop(c, "attribute 'name' missing"@),
                    Some(ns) => (
                        h,
                        (
                            Cont::ListToAttrs { items, i, out, cur: Some(m), name_sym, value_sym },
                            Ok(Yield::Force(ns)),
                        ),
                    ),
                },
            },
            (Some(v), Some(m)) => match self.want_str(v) {
                (h, Err(e)) => (h, (c, Err(e))),
                (h, Ok(t)) => {
                    let (h, k) = h.intern(h.text(t));
                    // The first binding of a name wins.
                    if lookup(h.set(out), k) is Some {
                        h.list_to_attrs_next(items, bump(i), out, name_sym, value_sym)
                    } else {
                        match lookup(h.set(m), value_sym) {
                            None => h.stop(c, "attribute 'value' missing"@),
                            Some(s) => h.set_put(
                                out,
                                bind(h.set(out), k, s),
                            ).list_to_attrs_next(items, bump(i), out, name_sym, value_sym),
                        }
                    }
                },
            },
        }
    }
}

impl HeapView {
    // -- replaceStrings ------------------------------------------------------

    /// The texts a list of text indices stands for.
    pub open spec fn texts_of(self, ids: Seq<usize>) -> Seq<Seq<char>> {
        Seq::new(ids.len(), |i: int| self.text(ids[i]))
    }

    /// A plan with its literals put into the heap.
    pub open spec fn store_plan(self, plan: Seq<PieceView>, i: int, out: Seq<Item>) -> (
        HeapView,
        Seq<Item>,
    )
        decreases plan.len() - i,
    {
        if i >= plan.len() {
            (self, out)
        } else {
            match plan[i] {
                PieceView::Lit(t) => {
                    let (h, id) = self.new_text(t);
                    h.store_plan(plan, i + 1, out.push(Item::Lit(id)))
                },
                PieceView::Use(j) => self.store_plan(plan, i + 1, out.push(Item::Use(j))),
            }
        }
    }

    /// What a plan comes to, given the replacements in the order of `used`.
    pub open spec fn carry_out(self, plan: Seq<Item>, used: Seq<usize>, tos: Seq<usize>, n: int) -> Seq<
        char,
    >
        decreases n,
    {
        if n <= 0 {
            Seq::empty()
        } else {
            let rest = self.carry_out(plan, used, tos, n - 1);
            match plan[n - 1] {
                Item::Lit(t) => rest + self.text(t),
                Item::Use(j) => {
                    let at = place_of(used, j, 0);
                    if at < tos.len() {
                        rest + self.text(tos[at])
                    } else {
                        rest
                    }
                },
                _ => rest,
            }
        }
    }

    /// Forces the next replacement, or puts the result together.
    pub open spec fn replace_next(
        self,
        froms: usize,
        plan: usize,
        used: usize,
        k: usize,
        tos: usize,
        to_items: usize,
    ) -> (HeapView, Walked) {
        let c = Cont::Replace { stage: 1, froms, plan, used, k, tos };
        if k < self.list(used).len() {
            match self.nth(to_items, self.list(used)[k as int]) {
                (h, Err(e)) => (h, (c, Err(e))),
                (h, Ok(s)) => (h, (c, Ok(Yield::Force(s)))),
            }
        } else {
            let p = self.work(plan);
            let (h, v) = self.str_value(
                self.carry_out(p, self.list(used), self.list(tos), p.len() as int),
            );
            (h, (c, Ok(Yield::Done(v))))
        }
    }

    pub open spec fn step_replace(
        self,
        stage: u8,
        froms: usize,
        plan: usize,
        used: usize,
        k: usize,
        tos: usize,
        args: usize,
        incoming: Option<Value>,
    ) -> (HeapView, Walked) {
        let c = Cont::Replace { stage, froms, plan, used, k, tos };
        match self.arg_list(args, 0) {
            (h, Err(e)) => (h, (c, Err(e))),
            (h, Ok(from_items)) => match h.arg_list(args, 1) {
                (h, Err(e)) => (h, (c, Err(e))),
                (h, Ok(to_items)) => if stage == 0 {
                    h.replace_stage0(froms, plan, used, k, tos, args, from_items, to_items, incoming)
                } else {
                    match incoming {
                        None => h.replace_next(froms, plan, used, k, tos, to_items),
                        Some(v) => if k >= h.list(used).len() {
                            h.stop(c, "internal: replaceStrings index lost"@)
                        } else {
                            match h.want_str(v) {
                                (h, Err(e)) => (h, (c, Err(e))),
                                (h, Ok(t)) => h.push_list(tos, t).replace_next(
                                    froms,
                                    plan,
                                    used,
                                    bump(k),
                                    tos,
                                    to_items,
                                ),
                            }
                        },
                    }
                },
            },
        }
    }

    /// Collects the patterns; once all are there, plans.
    pub open spec fn replace_stage0(
        self,
        froms: usize,
        plan: usize,
        used: usize,
        k: usize,
        tos: usize,
        args: usize,
        from_items: usize,
        to_items: usize,
        incoming: Option<Value>,
    ) -> (HeapView, Walked) {
        let c = Cont::Replace { stage: 0, froms, plan, used, k, tos };
        match incoming {
            None => self.replace_plan(froms, plan, used, k, tos, args, from_items, to_items),
            Some(v) => match self.want_str(v) {
                (h, Err(e)) => (h, (c, Err(e))),
                (h, Ok(t)) => h.push_list(froms, t).replace_plan(
                    froms,
                    plan,
                    used,
                    k,
                    tos,
                    args,
                    from_items,
                    to_items,
                ),
            },
        }
    }

    pub open spec fn replace_plan(
        self,
        froms: usize,
        plan: usize,
        used: usize,
        k: usize,
        tos: usize,
        args: usize,
        from_items: usize,
        to_items: usize,
    ) -> (HeapView, Walked) {
        let c = Cont::Replace { stage: 0, froms, plan, used, k, tos };
        let n = self.list(froms).len();
        if n < self.list(from_items).len() {
            (self, (c, Ok(Yield::Force(self.list(from_items)[n as int]))))
        } else {
            match self.arg_str(args, 2) {
                (h, Err(e)) => (h, (c, Err(e))),
                (h, Ok(subject)) => {
                    let p = plan_from(
                        h.texts_of(h.list(froms)),
                        h.text(subject),
                        0,
                        Seq::empty(),
                        Seq::empty(),
                    );
                    let (h, items) = h.store_plan(p, 0, Seq::empty());
                    h.work_put(plan, items).list_put(used, uses(p)).replace_next(
                        froms,
                        plan,
                        used,
                        k,
                        tos,
                        to_items,
                    )
                },
            }
        }
    }

    // -- deepSeq -------------------------------------------------------------

    /// Takes slots off the work list until one has not been visited.
    pub open spec fn deep_next(self, work: usize, seen: usize, args: usize) -> (HeapView, Walked)
        decreases self.list(work).len(),
    {
        let c = Cont::DeepSeq { work, seen, tail: false };
        let w = self.list(work);
        if w.len() == 0 {
            let c = Cont::DeepSeq { work, seen, tail: true };
            match self.arg(args, 1) {
                (h, Err(e)) => (h, (c, Err(e))),
                (h, Ok(s)) => (h, (c, Ok(Yield::Force(s)))),
            }
        } else {
            let h = self.list_put(work, w.drop_last());
            let s = w.last();
            if is_marked(h.list(seen), s) {
                h.deep_next(work, seen, args)
            } else {
                (h.mark(seen, s), (c, Ok(Yield::Force(s))))
            }
        }
    }

    /// Marks a slot that exists as visited.
    pub open spec fn mark(self, seen: usize, s: Slot) -> HeapView {
        if s < self.slots.len() {
            self.list_put(seen, marked(self.list(seen), s))
        } else {
            self
        }
    }

    pub open spec fn step_deep_seq(
        self,
        work: usize,
        seen: usize,
        tail: bool,
        args: usize,
        incoming: Option<Value>,
    ) -> (HeapView, Walked) {
        let c = Cont::DeepSeq { work, seen, tail };
        if tail {
            self.hand_back(c, incoming, "internal: deepSeq lost its result"@)
        } else {
            let h = match incoming {
                Some(Value::List(l)) => self.list_put(work, self.list(work) + self.list(l)),
                Some(Value::Attrs(m)) => self.list_put(
                    work,
                    self.list(work) + slots_of(self.set(m)),
                ),
                _ => self,
            };
            h.deep_next(work, seen, args)
        }
    }

    // -- import and tryEval --------------------------------------------------

    /// The module loaded for a path, from import `i` on.
    pub open spec fn module_for(self, path: Seq<char>, i: int) -> Option<usize>
        decreases self.imports.len() - i,
    {
        if i >= self.imports.len() {
            None
        } else if self.text(self.imports[i].0) == path {
            Some(self.imports[i].1)
        } else {
            self.module_for(path, i + 1)
        }
    }

    /// The string that an answer binds a name to.
    pub open spec fn answer_str(self, m: usize, name: Seq<char>) -> (HeapView, Result<usize, Fault>) {
        match self.attr(m, name) {
            (h, None) => h.fail("internal: malformed import answer"@),
            (h, Some(s)) => match h.forced(s) {
                (h, Err(e)) => (h, Err(e)),
                (h, Ok(v)) => h.want_str(v),
            },
        }
    }

    pub open spec fn entry_of(self, module: usize) -> u32 {
        if module < self.modules.len() {
            self.modules[module as int].entry
        } else {
            0
        }
    }

    pub open spec fn step_import(self, stage: u8, args: usize, incoming: Option<Value>) -> (
        HeapView,
        Walked,
    ) {
        if stage == 0 {
            let c = Cont::Import { stage: 1 };
            match self.arg_path(args) {
                (h, Err(e)) => (h, (c, Err(e))),
                (h, Ok(p)) => (h, (c, Ok(Yield::Need(Need::Import(p))))),
            }
        } else {
            let c = Cont::Import { stage: 2 };
            if stage == 2 {
                self.hand_back(c, incoming, "internal: import value lost"@)
            } else {
                match incoming {
                    None => self.stop(c, "internal: import answer lost"@),
                    Some(answer) => match self.want_attrs(answer) {
                        (h, Err(e)) => (h, (c, Err(e))),
                        (h, Ok(m)) => match h.answer_str(m, "path"@) {
                            (h, Err(e)) => (h, (c, Err(e))),
                            (h, Ok(path)) => match h.module_for(h.text(path), 0) {
                                None => h.stop(c, "internal: imported file not loaded"@),
                                Some(module) => {
                                    let (h, env) = h.new_env(EnvNode::Root);
                                    let (h, s) = h.new_slot(
                                        SlotState::Thunk { module, unit: h.entry_of(module), env },
                                    );
                                    (h, (c, Ok(Yield::Force(s))))
                                },
                            },
                        },
                    },
                }
            }
        }
    }

    /// The set that `tryEval` hands back.
    pub open spec fn try_eval_result(self, success: bool, v: Value) -> (HeapView, Value) {
        let (h, s) = self.intern("success"@);
        let (h, ss) = h.value_slot(Value::Bool(success));
        let (h, k) = h.intern("value"@);
        let (h, vs) = h.value_slot(v);
        h.attrs_value(bind(bind(Seq::empty(), s, ss), k, vs))
    }

    pub open spec fn step_try_eval(self, started: bool, args: usize, incoming: Option<Value>) -> (
        HeapView,
        Walked,
    ) {
        let c = Cont::TryEval { started: true };
        if !started {
            match self.nth(args, 0) {
                (h, Err(e)) => (h, (c, Err(e))),
                (h, Ok(s)) => (h, (c, Ok(Yield::Force(s)))),
            }
        } else {
            match incoming {
                None => self.stop(c, "internal: tryEval lost its value"@),
                Some(v) => {
                    let (h, r) = self.try_eval_result(true, v);
                    (h, (c, Ok(Yield::Done(r))))
                },
            }
        }
    }

    pub open spec fn step_ask(self, asked: bool, need: Need, incoming: Option<Value>) -> (
        HeapView,
        Walked,
    ) {
        let c = Cont::Ask { asked: true, need };
        if !asked {
            (self, (c, Ok(Yield::Need(need))))
        } else {
            self.hand_back(c, incoming, "internal: path answer lost"@)
        }
    }
}

/// The position of the first element equal to `x`, from `i` on.
pub open spec fn place_of(s: Seq<usize>, x: usize, i: int) -> int
    decreases s.len() - i,
{
    if i >= s.len() || s[i] == x {
        i
    } else {
        place_of(s, x, i + 1)
    }
}

} // verus!
