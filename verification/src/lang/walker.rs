//! Driving the continuations: the executable side of one step of each.
use crate::lang::conts::{bumped, is_marked, marked, place_of, value_in, Walked};
use crate::lang::frames::{Cont, Finish, Need, Yield};
use crate::lang::heap::{
    contents, set_bind, set_lookup, set_unbind, EnvNode, Fault, Heap, Item, Slot, SlotState, Sym,
    Value,
};
use crate::lang::lists::{one, two};
use crate::lang::quote::{build_plan, distinct_uses, plan_view, Piece};
use crate::lang::strings::join_texts;
use crate::lang::walks::slots_in;
use crate::text::{append_all, copy_of, text_of, Text};
use vstd::prelude::*;

verus! {

impl Heap {
    pub fn stop(&mut self, c: Cont, msg: &str) -> (r: Walked)
        ensures
            old(self)@.stop(c, msg@) == (final(self)@, r),
    {
        let r = self.fail_str(msg);
        (c, r)
    }

    pub fn hand_back(&mut self, c: Cont, incoming: Option<Value>, lost: &str) -> (r: Walked)
        ensures
            old(self)@.hand_back(c, incoming, lost@) == (final(self)@, r),
    {
        match incoming {
            Some(v) => (c, Ok(Yield::Done(v))),
            None => self.stop(c, lost),
        }
    }

    fn apply_next(&mut self, c: Cont, f: Value, items: usize, i: usize, done: Value) -> (r: Walked)
        ensures
            old(self)@.apply_next(c, f, items, i, done) == (final(self)@, r),
    {
        match self.list_get(items, i) {
            None => (c, Ok(Yield::Done(done))),
            Some(s) => (c, Ok(Yield::Apply(f, s))),
        }
    }

    pub fn list_append(&mut self, id: usize, more: &Vec<usize>)
        ensures
            final(self)@ == old(self)@.list_put(id, old(self)@.list(id) + more@),
    {
        if id < self.lists.len() {
            append_all(&mut self.lists[id], more);
        }
        assert(self@ =~= old(self)@.list_put(id, old(self)@.list(id) + more@));
    }

    fn list_insert(&mut self, id: usize, at: usize, x: usize)
        requires
            at <= old(self)@.list(id).len(),
        ensures
            final(self)@ == old(self)@.list_put(id, old(self)@.list(id).insert(at as int, x)),
    {
        if id < self.lists.len() {
            self.lists[id].insert(at, x);
        }
        assert(self@ =~= old(self)@.list_put(id, old(self)@.list(id).insert(at as int, x)));
    }

    fn list_pop(&mut self, id: usize) -> (r: Option<usize>)
        ensures
            (final(self)@, r) == (if old(self)@.list(id).len() == 0 {
                (old(self)@, None)
            } else {
                (
                    old(self)@.list_put(id, old(self)@.list(id).drop_last()),
                    Some(old(self)@.list(id).last()),
                )
            }),
    {
        if id < self.lists.len() && self.lists[id].len() > 0 {
            let r = self.lists[id].pop();
            assert(self@ =~= old(self)@.list_put(id, old(self)@.list(id).drop_last()));
            r
        } else {
            None
        }
    }

    pub fn step_filter(
        &mut self,
        f: Value,
        items: usize,
        i: usize,
        out: usize,
        incoming: Option<Value>,
    ) -> (r: Walked)
        ensures
            old(self)@.step_filter(f, items, i, out, incoming) == (final(self)@, r),
    {
        let c = Cont::Filter { f, items, i, out };
        match incoming {
            None => self.apply_next(c, f, items, i, Value::List(out)),
            Some(v) => match self.want_bool(v) {
                Err(e) => (c, Err(e)),
                Ok(keep) => match self.nth(items, i) {
                    Err(e) => (c, Err(e)),
                    Ok(s) => {
                        if keep {
                            self.list_push(out, s);
                        }
                        let j = bumped(i);
                        self.apply_next(
                            Cont::Filter { f, items, i: j, out },
                            f,
                            items,
                            j,
                            Value::List(out),
                        )
                    },
                },
            },
        }
    }

    pub fn step_any_all(
        &mut self,
        f: Value,
        items: usize,
        i: usize,
        want: bool,
        incoming: Option<Value>,
    ) -> (r: Walked)
        ensures
            old(self)@.step_any_all(f, items, i, want, incoming) == (final(self)@, r),
    {
        let c = Cont::AnyAll { f, items, i, want };
        match incoming {
            None => self.apply_next(c, f, items, i, Value::Bool(!want)),
            Some(v) => match self.want_bool(v) {
                Err(e) => (c, Err(e)),
                Ok(b) => if b == want {
                    (c, Ok(Yield::Done(Value::Bool(want))))
                } else {
                    let j = bumped(i);
                    self.apply_next(
                        Cont::AnyAll { f, items, i: j, want },
                        f,
                        items,
                        j,
                        Value::Bool(!want),
                    )
                },
            },
        }
    }

    pub fn step_concat_map(
        &mut self,
        f: Value,
        items: usize,
        i: usize,
        out: usize,
        incoming: Option<Value>,
    ) -> (r: Walked)
        ensures
            old(self)@.step_concat_map(f, items, i, out, incoming) == (final(self)@, r),
    {
        let c = Cont::ConcatMap { f, items, i, out };
        match incoming {
            None => self.apply_next(c, f, items, i, Value::List(out)),
            Some(v) => match self.want_list(v) {
                Err(e) => (c, Err(e)),
                Ok(l) => {
                    let more = self.list(l);
                    self.list_append(out, &more);
                    let j = bumped(i);
                    self.apply_next(
                        Cont::ConcatMap { f, items, i: j, out },
                        f,
                        items,
                        j,
                        Value::List(out),
                    )
                },
            },
        }
    }

    fn fold_next(&mut self, f: Value, items: usize, i: usize, acc: Slot) -> (r: Walked)
        ensures
            old(self)@.fold_next(f, items, i, acc) == (final(self)@, r),
    {
        let c = Cont::Foldl { f, items, i, acc, half: false, finishing: false };
        if i >= self.list_len(items) {
            match self.peek(acc) {
                Some(v) => (c, Ok(Yield::Done(v))),
                None => (
                    Cont::Foldl { f, items, i, acc, half: false, finishing: true },
                    Ok(Yield::Force(acc)),
                ),
            }
        } else {
            (c, Ok(Yield::Apply(f, acc)))
        }
    }

    pub fn step_foldl(
        &mut self,
        f: Value,
        items: usize,
        i: usize,
        acc: Slot,
        half: bool,
        finishing: bool,
        incoming: Option<Value>,
    ) -> (r: Walked)
        ensures
            old(self)@.step_foldl(f, items, i, acc, half, finishing, incoming) == (final(self)@, r),
    {
        if finishing {
            return self.hand_back(
                Cont::Foldl { f, items, i, acc, half, finishing },
                incoming,
                "internal: foldl' lost its accumulator",
            );
        }
        match incoming {
            None => self.fold_next(f, items, i, acc),
            Some(v) => if !half {
                let c = Cont::Foldl { f, items, i, acc, half: true, finishing };
                match self.nth(items, i) {
                    Err(e) => (c, Err(e)),
                    Ok(s) => (c, Ok(Yield::Apply(v, s))),
                }
            } else {
                let acc = self.value_slot(v);
                self.fold_next(f, items, bumped(i), acc)
            },
        }
    }

    fn sort_next(&mut self, f: Value, items: usize, next: usize, sorted: usize, probe: usize) -> (r:
        Walked)
        ensures
            old(self)@.sort_next(f, items, next, sorted, probe) == (final(self)@, r),
    {
        let c = Cont::Sort { f, items, next, sorted, probe, half: false };
        match self.list_get(items, next) {
            None => self.apply_next(c, f, items, next, Value::List(sorted)),
            Some(item) => if probe >= self.list_len(sorted) {
                self.list_push(sorted, item);
                let n = bumped(next);
                self.apply_next(
                    Cont::Sort { f, items, next: n, sorted, probe: 0, half: false },
                    f,
                    items,
                    n,
                    Value::List(sorted),
                )
            } else {
                self.apply_next(c, f, items, next, Value::List(sorted))
            },
        }
    }

    pub fn step_sort(
        &mut self,
        f: Value,
        items: usize,
        next: usize,
        sorted: usize,
        probe: usize,
        half: bool,
        incoming: Option<Value>,
    ) -> (r: Walked)
        ensures
            old(self)@.step_sort(f, items, next, sorted, probe, half, incoming) == (final(self)@, r),
    {
        let c = Cont::Sort { f, items, next, sorted, probe, half };
        match incoming {
            None => self.sort_next(f, items, next, sorted, probe),
            Some(v) => if !half {
                let c = Cont::Sort { f, items, next, sorted, probe, half: true };
                match self.nth(sorted, probe) {
                    Err(e) => (c, Err(e)),
                    Ok(s) => (c, Ok(Yield::Apply(v, s))),
                }
            } else {
                match self.want_bool(v) {
                    Err(e) => (c, Err(e)),
                    Ok(less) => if !less {
                        self.sort_next(f, items, next, sorted, bumped(probe))
                    } else {
                        match self.nth(items, next) {
                            Err(e) => (c, Err(e)),
                            Ok(item) => if probe > self.list_len(sorted) {
                                self.stop(c, "internal: list position lost")
                            } else {
                                self.list_insert(sorted, probe, item);
                                self.sort_next(f, items, bumped(next), sorted, 0)
                            },
                        }
                    },
                }
            },
        }
    }

    fn group_add(&mut self, groups: &mut Vec<(Sym, Slot)>, k: Sym, s: Slot)
        ensures
            old(self)@.group_add(old(groups)@, k, s) == (final(self)@, final(groups)@),
    {
        match set_lookup(groups, k) {
            Some(l) => self.list_push(l, s),
            None => {
                let l = self.new_list(one(s));
                set_bind(groups, k, l);
            },
        }
    }

    fn group_next(&mut self, f: Value, items: usize, i: usize, out: usize) -> (r: Walked)
        ensures
            old(self)@.group_next(f, items, i, out) == (final(self)@, r),
    {
        let c = Cont::GroupBy { f, items, i, out };
        match self.list_get(items, i) {
            Some(s) => (c, Ok(Yield::Apply(f, s))),
            None => {
                let groups = self.set(out);
                let mut made: Vec<(Sym, Slot)> = Vec::new();
                let mut j: usize = 0;
                while j < groups.len()
                    invariant
                        j <= groups.len(),
                        self@.group_slots(groups@, j as int, made@) == old(self)@.group_slots(
                            groups@,
                            0,
                            Seq::empty(),
                        ),
                    decreases groups.len() - j,
                {
                    let s = self.value_slot(Value::List(groups[j].1));
                    made.push((groups[j].0, s));
                    j += 1;
                }
                let v = self.attrs_value(made);
                (c, Ok(Yield::Done(v)))
            },
        }
    }

    pub fn step_group_by(
        &mut self,
        f: Value,
        items: usize,
        i: usize,
        out: usize,
        incoming: Option<Value>,
    ) -> (r: Walked)
        ensures
            old(self)@.step_group_by(f, items, i, out, incoming) == (final(self)@, r),
    {
        let c = Cont::GroupBy { f, items, i, out };
        match incoming {
            None => self.group_next(f, items, i, out),
            Some(v) => match self.want_str(v) {
                Err(e) => (c, Err(e)),
                Ok(t) => {
                    let t = self.text(t);
                    let k = self.intern(&t);
                    match self.nth(items, i) {
                        Err(e) => (c, Err(e)),
                        Ok(s) => {
                            let mut groups = self.set(out);
                            self.group_add(&mut groups, k, s);
                            self.set_put(out, groups);
                            self.group_next(f, items, bumped(i), out)
                        },
                    }
                },
            },
        }
    }

    fn partition_next(&mut self, f: Value, items: usize, i: usize, right: usize, wrong: usize) -> (r:
        Walked)
        ensures
            old(self)@.partition_next(f, items, i, right, wrong) == (final(self)@, r),
    {
        let c = Cont::Partition { f, items, i, right, wrong };
        match self.list_get(items, i) {
            Some(s) => (c, Ok(Yield::Apply(f, s))),
            None => {
                let r = self.intern(&text_of("right"));
                let rs = self.value_slot(Value::List(right));
                let w = self.intern(&text_of("wrong"));
                let ws = self.value_slot(Value::List(wrong));
                let mut made: Vec<(Sym, Slot)> = Vec::new();
                set_bind(&mut made, r, rs);
                set_bind(&mut made, w, ws);
                let v = self.attrs_value(made);
                (c, Ok(Yield::Done(v)))
            },
        }
    }

    pub fn step_partition(
        &mut self,
        f: Value,
        items: usize,
        i: usize,
        right: usize,
        wrong: usize,
        incoming: Option<Value>,
    ) -> (r: Walked)
        ensures
            old(self)@.step_partition(f, items, i, right, wrong, incoming) == (final(self)@, r),
    {
        let c = Cont::Partition { f, items, i, right, wrong };
        match incoming {
            None => self.partition_next(f, items, i, right, wrong),
            Some(v) => match self.want_bool(v) {
                Err(e) => (c, Err(e)),
                Ok(b) => match self.nth(items, i) {
                    Err(e) => (c, Err(e)),
                    Ok(s) => {
                        self.list_push(
                            if b {
                                right
                            } else {
                                wrong
                            },
                            s,
                        );
                        self.partition_next(f, items, bumped(i), right, wrong)
                    },
                },
            },
        }
    }

    pub fn step_elem(&mut self, x: Slot, items: usize, i: usize, incoming: Option<Value>) -> (r:
        Walked)
        ensures
            old(self)@.step_elem(x, items, i, incoming) == (final(self)@, r),
    {
        let mut j: usize = i;
        match incoming {
            Some(Value::Bool(true)) => {
                return (Cont::Elem { x, items, i }, Ok(Yield::Done(Value::Bool(true))));
            },
            Some(_) => {
                j = bumped(i);
            },
            None => {},
        }
        let c = Cont::Elem { x, items, i: j };
        match self.list_get(items, j) {
            None => (c, Ok(Yield::Done(Value::Bool(false)))),
            Some(s) => {
                let t = self.deep_eq_slots(x, s, false);
                (c, Ok(Yield::Sub(t)))
            },
        }
    }

    // -- finishing -----------------------------------------------------------

    fn concat_from(&mut self, vals: &Vec<Item>) -> (r: Result<Vec<usize>, Fault>)
        ensures
            match r {
                Ok(l) => old(self)@.concat_from(vals@, 0, Seq::empty()) == (
                    final(self)@,
                    Ok::<Seq<usize>, Fault>(l@),
                ),
                Err(e) => old(self)@.concat_from(vals@, 0, Seq::empty()) == (
                    final(self)@,
                    Err::<Seq<usize>, Fault>(e),
                ),
            },
    {
        let mut out: Vec<usize> = Vec::new();
        let mut i: usize = 0;
        while i < vals.len()
            invariant
                i <= vals.len(),
                self@.concat_from(vals@, i as int, out@) == old(self)@.concat_from(
                    vals@,
                    0,
                    Seq::empty(),
                ),
            decreases vals.len() - i,
        {
            match self.want_list(value_in(vals[i])) {
                Err(e) => {
                    return Err(e);
                },
                Ok(l) => {
                    let more = self.list(l);
                    append_all(&mut out, &more);
                },
            }
            i += 1;
        }
        Ok(out)
    }

    fn remove_from(&mut self, vals: &Vec<Item>, m: usize) -> (r: Result<Vec<(Sym, Slot)>, Fault>)
        ensures
            match r {
                Ok(s) => old(self)@.remove_from(vals@, 0, old(self)@.set(m)) == (
                    final(self)@,
                    Ok::<Seq<(Sym, Slot)>, Fault>(s@),
                ),
                Err(e) => old(self)@.remove_from(vals@, 0, old(self)@.set(m)) == (
                    final(self)@,
                    Err::<Seq<(Sym, Slot)>, Fault>(e),
                ),
            },
    {
        let mut out = self.set(m);
        let mut i: usize = 0;
        while i < vals.len()
            invariant
                i <= vals.len(),
                self@.remove_from(vals@, i as int, out@) == old(self)@.remove_from(
                    vals@,
                    0,
                    old(self)@.set(m),
                ),
            decreases vals.len() - i,
        {
            match self.want_str(value_in(vals[i])) {
                Err(e) => {
                    return Err(e);
                },
                Ok(t) => {
                    let t = self.text(t);
                    let k = self.intern(&t);
                    set_unbind(&mut out, k);
                },
            }
            i += 1;
        }
        Ok(out)
    }

    fn cat_from(&mut self, vals: &Vec<Item>, k: Sym) -> (r: Result<Vec<usize>, Fault>)
        ensures
            match r {
                Ok(l) => old(self)@.cat_from(vals@, k, 0, Seq::empty()) == (
                    final(self)@,
                    Ok::<Seq<usize>, Fault>(l@),
                ),
                Err(e) => old(self)@.cat_from(vals@, k, 0, Seq::empty()) == (
                    final(self)@,
                    Err::<Seq<usize>, Fault>(e),
                ),
            },
    {
        let mut out: Vec<usize> = Vec::new();
        let mut i: usize = 0;
        while i < vals.len()
            invariant
                i <= vals.len(),
                self@.cat_from(vals@, k, i as int, out@) == old(self)@.cat_from(
                    vals@,
                    k,
                    0,
                    Seq::empty(),
                ),
            decreases vals.len() - i,
        {
            match self.want_attrs(value_in(vals[i])) {
                Err(e) => {
                    return Err(e);
                },
                Ok(m) => match self.set_get(m, k) {
                    Some(s) => out.push(s),
                    None => {},
                },
            }
            i += 1;
        }
        Ok(out)
    }

    fn texts_from(&mut self, vals: &Vec<Item>) -> (r: Result<Vec<Text>, Fault>)
        ensures
            match r {
                Ok(l) => old(self)@.texts_from(vals@, 0, Seq::empty()) == (
                    final(self)@,
                    Ok::<Seq<Seq<char>>, Fault>(contents(l@)),
                ),
                Err(e) => old(self)@.texts_from(vals@, 0, Seq::empty()) == (
                    final(self)@,
                    Err::<Seq<Seq<char>>, Fault>(e),
                ),
            },
    {
        let mut out: Vec<Text> = Vec::new();
        let mut i: usize = 0;
        assert(contents(out@) =~= Seq::empty());
        while i < vals.len()
            invariant
                i <= vals.len(),
                self@.texts_from(vals@, i as int, contents(out@)) == old(self)@.texts_from(
                    vals@,
                    0,
                    Seq::empty(),
                ),
            decreases vals.len() - i,
        {
            match self.coerce_interpolated(value_in(vals[i])) {
                Err(e) => {
                    return Err(e);
                },
                Ok(t) => {
                    let ghost before = contents(out@);
                    let t = self.text(t);
                    let ghost added = t@;
                    out.push(t);
                    assert(contents(out@) =~= before.push(added));
                },
            }
            i += 1;
        }
        Ok(out)
    }

    fn zip_from(&mut self, vals: &Vec<Item>) -> (r: Result<Vec<(Sym, Slot)>, Fault>)
        ensures
            match r {
                Ok(l) => old(self)@.zip_from(vals@, 0, Seq::empty()) == (
                    final(self)@,
                    Ok::<Seq<(Sym, Slot)>, Fault>(l@),
                ),
                Err(e) => old(self)@.zip_from(vals@, 0, Seq::empty()) == (
                    final(self)@,
                    Err::<Seq<(Sym, Slot)>, Fault>(e),
                ),
            },
    {
        let mut groups: Vec<(Sym, Slot)> = Vec::new();
        let mut i: usize = 0;
        while i < vals.len()
            invariant
                i <= vals.len(),
                self@.zip_from(vals@, i as int, groups@) == old(self)@.zip_from(
                    vals@,
                    0,
                    Seq::empty(),
                ),
            decreases vals.len() - i,
        {
            match self.want_attrs(value_in(vals[i])) {
                Err(e) => {
                    return Err(e);
                },
                Ok(m) => {
                    let m = self.set(m);
                    let ghost h0 = self@;
                    let ghost g0 = groups@;
                    let mut j: usize = 0;
                    while j < m.len()
                        invariant
                            j <= m.len(),
                            self@.zip_entries(m@, j as int, groups@) == h0.zip_entries(m@, 0, g0),
                        decreases m.len() - j,
                    {
                        self.group_add(&mut groups, m[j].0, m[j].1);
                        j += 1;
                    }
                },
            }
            i += 1;
        }
        Ok(groups)
    }

    fn zip_slots(&mut self, f: Value, groups: &Vec<(Sym, Slot)>) -> (r: Vec<(Sym, Slot)>)
        ensures
            old(self)@.zip_slots(f, groups@, 0, Seq::empty()) == (final(self)@, r@),
    {
        let mut out: Vec<(Sym, Slot)> = Vec::new();
        let mut i: usize = 0;
        while i < groups.len()
            invariant
                i <= groups.len(),
                self@.zip_slots(f, groups@, i as int, out@) == old(self)@.zip_slots(
                    f,
                    groups@,
                    0,
                    Seq::empty(),
                ),
            decreases groups.len() - i,
        {
            let name = self.sym_name(groups[i].0);
            let name = self.str_slot(name);
            let vals = self.value_slot(Value::List(groups[i].1));
            let s = self.pending_slot(f, two(name, vals));
            out.push((groups[i].0, s));
            i += 1;
        }
        out
    }

    pub fn finish(&mut self, finish: Finish, vals: &Vec<Item>, args: usize) -> (r: Result<
        Value,
        Fault,
    >)
        ensures
            old(self)@.finish(finish, vals@, args) == (final(self)@, r),
    {
        match finish {
            Finish::ConcatLists => match self.concat_from(vals) {
                Err(e) => Err(e),
                Ok(l) => Ok(self.list_value(l)),
            },
            Finish::RemoveAttrs => match self.arg_attrs(args, 0) {
                Err(e) => Err(e),
                Ok(m) => match self.remove_from(vals, m) {
                    Err(e) => Err(e),
                    Ok(s) => Ok(self.attrs_value(s)),
                },
            },
            Finish::CatAttrs => match self.arg_str(args, 0) {
                Err(e) => Err(e),
                Ok(t) => {
                    let t = self.text(t);
                    let k = self.intern(&t);
                    match self.cat_from(vals, k) {
                        Err(e) => Err(e),
                        Ok(l) => Ok(self.list_value(l)),
                    }
                },
            },
            Finish::ConcatSep => match self.arg_str(args, 0) {
                Err(e) => Err(e),
                Ok(sep) => match self.texts_from(vals) {
                    Err(e) => Err(e),
                    Ok(parts) => {
                        let t = join_texts(&parts, &self.text(sep));
                        Ok(self.str_value(t))
                    },
                },
            },
            Finish::ZipAttrs => match self.argv(args, 0) {
                Err(e) => Err(e),
                Ok(f) => match self.zip_from(vals) {
                    Err(e) => Err(e),
                    Ok(groups) => {
                        let out = self.zip_slots(f, &groups);
                        Ok(self.attrs_value(out))
                    },
                },
            },
        }
    }

    pub fn step_force_each(
        &mut self,
        items: usize,
        i: usize,
        vals: usize,
        finish: Finish,
        args: usize,
        incoming: Option<Value>,
    ) -> (r: Walked)
        ensures
            old(self)@.step_force_each(items, i, vals, finish, args, incoming) == (final(self)@, r),
    {
        let mut j: usize = i;
        match incoming {
            Some(v) => {
                self.work_push(vals, Item::Val(v));
                j = bumped(i);
            },
            None => {},
        }
        let c = Cont::ForceEach { items, i: j, vals, finish };
        match self.list_get(items, j) {
            Some(s) => (c, Ok(Yield::Force(s))),
            None => {
                let all = self.work(vals);
                match self.finish(finish, &all, args) {
                    Err(e) => (c, Err(e)),
                    Ok(v) => (c, Ok(Yield::Done(v))),
                }
            },
        }
    }

    fn list_to_attrs_next(
        &mut self,
        items: usize,
        i: usize,
        out: usize,
        name_sym: Sym,
        value_sym: Sym,
    ) -> (r: Walked)
        ensures
            old(self)@.list_to_attrs_next(items, i, out, name_sym, value_sym) == (final(self)@, r),
    {
        let c = Cont::ListToAttrs { items, i, out, cur: None, name_sym, value_sym };
        match self.list_get(items, i) {
            None => (c, Ok(Yield::Done(Value::Attrs(out)))),
            Some(s) => (c, Ok(Yield::Force(s))),
        }
    }

    pub fn step_list_to_attrs(
        &mut self,
        items: usize,
        i: usize,
        out: usize,
        cur: Option<usize>,
        name_sym: Sym,
        value_sym: Sym,
        incoming: Option<Value>,
    ) -> (r: Walked)
        ensures
            old(self)@.step_list_to_attrs(items, i, out, cur, name_sym, value_sym, incoming) == (
                final(self)@,
                r,
            ),
    {
        let c = Cont::ListToAttrs { items, i, out, cur: None, name_sym, value_sym };
        match (incoming, cur) {
            (None, _) => self.list_to_attrs_next(items, i, out, name_sym, value_sym),
            (Some(v), None) => match self.want_attrs(v) {
                Err(e) => (c, Err(e)),
                Ok(m) => match self.set_get(m, name_sym) {
                    None => self.stop(c, "attribute 'name' missing"),
                    Some(ns) => (
                        Cont::ListToAttrs { items, i, out, cur: Some(m), name_sym, value_sym },
                        Ok(Yield::Force(ns)),
                    ),
                },
            },
            (Some(v), Some(m)) => match self.want_str(v) {
                Err(e) => (c, Err(e)),
                Ok(t) => {
                    let t = self.text(t);
                    let k = self.intern(&t);
                    if self.set_get(out, k).is_some() {
                        self.list_to_attrs_next(items, bumped(i), out, name_sym, value_sym)
                    } else {
                        match self.set_get(m, value_sym) {
                            None => self.stop(c, "attribute 'value' missing"),
                            Some(s) => {
                                self.set_insert(out, k, s);
                                self.list_to_attrs_next(items, bumped(i), out, name_sym, value_sym)
                            },
                        }
                    }
                },
            },
        }
    }

    // -- replaceStrings ------------------------------------------------------

    fn texts_of(&self, ids: &Vec<usize>) -> (r: Vec<Text>)
        ensures
            contents(r@) == self@.texts_of(ids@),
    {
        let mut out: Vec<Text> = Vec::new();
        let mut i: usize = 0;
        while i < ids.len()
            invariant
                i <= ids.len(),
                contents(out@) == self@.texts_of(ids@).take(i as int),
            decreases ids.len() - i,
        {
            let ghost before = contents(out@);
            let t = self.text(ids[i]);
            let ghost added = t@;
            out.push(t);
            assert(contents(out@) =~= before.push(added));
            assert(self@.texts_of(ids@).take(i + 1) =~= self@.texts_of(ids@).take(i as int).push(
                self@.texts_of(ids@)[i as int],
            ));
            i += 1;
        }
        assert(self@.texts_of(ids@).take(ids.len() as int) == self@.texts_of(ids@));
        out
    }

    fn store_plan(&mut self, plan: &Vec<Piece>) -> (r: Vec<Item>)
        ensures
            old(self)@.store_plan(plan_view(plan@), 0, Seq::empty()) == (final(self)@, r@),
    {
        let mut out: Vec<Item> = Vec::new();
        let mut i: usize = 0;
        while i < plan.len()
            invariant
                i <= plan.len(),
                self@.store_plan(plan_view(plan@), i as int, out@) == old(self)@.store_plan(
                    plan_view(plan@),
                    0,
                    Seq::empty(),
                ),
            decreases plan.len() - i,
        {
            match &plan[i] {
                Piece::Lit(t) => {
                    let id = self.new_text(copy_of(t));
                    out.push(Item::Lit(id));
                },
                Piece::Use(j) => out.push(Item::Use(*j)),
            }
            i += 1;
        }
        out
    }

    fn carry_out(&self, plan: &Vec<Item>, used: &Vec<usize>, tos: &Vec<usize>) -> (r: Text)
        ensures
            r@ == self@.carry_out(plan@, used@, tos@, plan@.len() as int),
    {
        let mut out: Text = Vec::new();
        let mut i: usize = 0;
        while i < plan.len()
            invariant
                i <= plan.len(),
                out@ == self@.carry_out(plan@, used@, tos@, i as int),
            decreases plan.len() - i,
        {
            match plan[i] {
                Item::Lit(t) => append_all(&mut out, &self.text(t)),
                Item::Use(j) => {
                    let mut at: usize = 0;
                    while at < used.len() && used[at] != j
                        invariant
                            at <= used.len(),
                            place_of(used@, j, at as int) == place_of(used@, j, 0),
                        decreases used.len() - at,
                    {
                        at += 1;
                    }
                    if at < tos.len() {
                        append_all(&mut out, &self.text(tos[at]));
                    }
                },
                _ => {},
            }
            i += 1;
        }
        out
    }

    fn replace_next(
        &mut self,
        froms: usize,
        plan: usize,
        used: usize,
        k: usize,
        tos: usize,
        to_items: usize,
    ) -> (r: Walked)
        ensures
            old(self)@.replace_next(froms, plan, used, k, tos, to_items) == (final(self)@, r),
    {
        let c = Cont::Replace { stage: 1, froms, plan, used, k, tos };
        match self.list_get(used, k) {
            Some(j) => match self.nth(to_items, j) {
                Err(e) => (c, Err(e)),
                Ok(s) => (c, Ok(Yield::Force(s))),
            },
            None => {
                let t = self.carry_out(&self.work(plan), &self.list(used), &self.list(tos));
                let v = self.str_value(t);
                (c, Ok(Yield::Done(v)))
            },
        }
    }

    fn replace_plan(
        &mut self,
        froms: usize,
        plan: usize,
        used: usize,
        k: usize,
        tos: usize,
        args: usize,
        from_items: usize,
        to_items: usize,
    ) -> (r: Walked)
        ensures
            old(self)@.replace_plan(froms, plan, used, k, tos, args, from_items, to_items) == (
                final(self)@,
                r,
            ),
    {
        let c = Cont::Replace { stage: 0, froms, plan, used, k, tos };
        let n = self.list_len(froms);
        match self.list_get(from_items, n) {
            Some(s) => (c, Ok(Yield::Force(s))),
            None => match self.arg_str(args, 2) {
                Err(e) => (c, Err(e)),
                Ok(subject) => {
                    let pats = self.texts_of(&self.list(froms));
                    let p = build_plan(&pats, &self.text(subject));
                    let items = self.store_plan(&p);
                    self.work_put(plan, items);
                    self.list_put(used, distinct_uses(&p));
                    self.replace_next(froms, plan, used, k, tos, to_items)
                },
            },
        }
    }

    fn replace_stage0(
        &mut self,
        froms: usize,
        plan: usize,
        used: usize,
        k: usize,
        tos: usize,
        args: usize,
        from_items: usize,
        to_items: usize,
        incoming: Option<Value>,
    ) -> (r: Walked)
        ensures
            old(self)@.replace_stage0(
                froms,
                plan,
                used,
                k,
                tos,
                args,
                from_items,
                to_items,
                incoming,
            ) == (final(self)@, r),
    {
        match incoming {
            None => self.replace_plan(froms, plan, used, k, tos, args, from_items, to_items),
            Some(v) => match self.want_str(v) {
                Err(e) => (Cont::Replace { stage: 0, froms, plan, used, k, tos }, Err(e)),
                Ok(t) => {
                    self.list_push(froms, t);
                    self.replace_plan(froms, plan, used, k, tos, args, from_items, to_items)
                },
            },
        }
    }

    pub fn step_replace(
        &mut self,
        stage: u8,
        froms: usize,
        plan: usize,
        used: usize,
        k: usize,
        tos: usize,
        args: usize,
        incoming: Option<Value>,
    ) -> (r: Walked)
        ensures
            old(self)@.step_replace(stage, froms, plan, used, k, tos, args, incoming) == (
                final(self)@,
                r,
            ),
    {
        let c = Cont::Replace { stage, froms, plan, used, k, tos };
        let from_items = match self.arg_list(args, 0) {
            Ok(l) => l,
            Err(e) => {
                return (c, Err(e));
            },
        };
        let to_items = match self.arg_list(args, 1) {
            Ok(l) => l,
            Err(e) => {
                return (c, Err(e));
            },
        };
        if stage == 0 {
            return self.replace_stage0(
                froms,
                plan,
                used,
                k,
                tos,
                args,
                from_items,
                to_items,
                incoming,
            );
        }
        match incoming {
            None => self.replace_next(froms, plan, used, k, tos, to_items),
            Some(v) => if k >= self.list_len(used) {
                self.stop(c, "internal: replaceStrings index lost")
            } else {
                match self.want_str(v) {
                    Err(e) => (c, Err(e)),
                    Ok(t) => {
                        self.list_push(tos, t);
                        self.replace_next(froms, plan, used, bumped(k), tos, to_items)
                    },
                }
            },
        }
    }

    // -- deepSeq -------------------------------------------------------------

    fn is_marked(&self, seen: usize, s: Slot) -> (r: bool)
        ensures
            r == is_marked(self@.list(seen), s),
    {
        match self.list_get(seen, s) {
            Some(m) => m == 1,
            None => false,
        }
    }

    fn mark(&mut self, seen: usize, s: Slot)
        ensures
            final(self)@ == old(self)@.mark(seen, s),
    {
        if s >= self.slots.len() {
            return;
        }
        if seen < self.lists.len() {
            let ghost l = self.lists@[seen as int]@;
            let ghost before = self.lists@;
            while self.lists[seen].len() <= s
                invariant
                    seen < self.lists.len(),
                    s < self.slots.len(),
                    self.slots == old(self).slots,
                    self.sets == old(self).sets,
                    self.texts == old(self).texts,
                    self.works == old(self).works,
                    self.envs == old(self).envs,
                    self.symbols == old(self).symbols,
                    self.modules == old(self).modules,
                    self.imports == old(self).imports,
                    self.lists.len() == before.len(),
                    forall|i: int| 0 <= i < before.len() && i != seen ==> self.lists@[i] == before[i],
                    self.lists@[seen as int]@.len() >= l.len(),
                    self.lists@[seen as int]@.len() <= l.len() || self.lists@[seen as int]@.len()
                        <= s + 1,
                    forall|i: int| 0 <= i < l.len() ==> self.lists@[seen as int]@[i] == l[i],
                    forall|i: int|
                        l.len() <= i < self.lists@[seen as int]@.len()
                            ==> self.lists@[seen as int]@[i] == 0,
                decreases s + 1 - self.lists@[seen as int]@.len(),
            {
                self.lists[seen].push(0);
            }
            self.lists[seen].set(s, 1);
            assert(self.lists@[seen as int]@ =~= marked(l, s));
        }
        assert(self@ =~= old(self)@.mark(seen, s));
    }

    fn deep_next(&mut self, work: usize, seen: usize, args: usize) -> (r: Walked)
        ensures
            old(self)@.deep_next(work, seen, args) == (final(self)@, r),
    {
        let mut left: usize = self.list_len(work);
        while left > 0
            invariant
                left == self@.list(work).len(),
                self@.deep_next(work, seen, args) == old(self)@.deep_next(work, seen, args),
            decreases left,
        {
            match self.list_pop(work) {
                Some(s) => {
                    if !self.is_marked(seen, s) {
                        self.mark(seen, s);
                        return (Cont::DeepSeq { work, seen, tail: false }, Ok(Yield::Force(s)));
                    }
                },
                None => {},
            }
            left -= 1;
        }
        let c = Cont::DeepSeq { work, seen, tail: true };
        match self.arg(args, 1) {
            Err(e) => (c, Err(e)),
            Ok(s) => (c, Ok(Yield::Force(s))),
        }
    }

    pub fn step_deep_seq(
        &mut self,
        work: usize,
        seen: usize,
        tail: bool,
        args: usize,
        incoming: Option<Value>,
    ) -> (r: Walked)
        ensures
            old(self)@.step_deep_seq(work, seen, tail, args, incoming) == (final(self)@, r),
    {
        if tail {
            return self.hand_back(
                Cont::DeepSeq { work, seen, tail },
                incoming,
                "internal: deepSeq lost its result",
            );
        }
        match incoming {
            Some(Value::List(l)) => {
                let more = self.list(l);
                self.list_append(work, &more);
            },
            Some(Value::Attrs(m)) => {
                let more = slots_in(&self.set(m));
                self.list_append(work, &more);
            },
            _ => {},
        }
        self.deep_next(work, seen, args)
    }

    // -- import and tryEval --------------------------------------------------

    /// The module loaded for a path.
    pub fn module_for(&self, path: &Text) -> (r: Option<usize>)
        ensures
            r == self@.module_for(path@, 0),
    {
        let mut i: usize = 0;
        while i < self.imports.len()
            invariant
                i <= self.imports.len(),
                self@.module_for(path@, i as int) == self@.module_for(path@, 0),
            decreases self.imports.len() - i,
        {
            if crate::lang::heap::same_text(&self.text(self.imports[i].0), path) {
                return Some(self.imports[i].1);
            }
            i += 1;
        }
        None
    }

    fn answer_str(&mut self, m: usize, name: &str) -> (r: Result<usize, Fault>)
        ensures
            old(self)@.answer_str(m, name@) == (final(self)@, r),
    {
        match self.attr(m, name) {
            None => self.fail_str("internal: malformed import answer"),
            Some(s) => match self.forced(s) {
                Err(e) => Err(e),
                Ok(v) => self.want_str(v),
            },
        }
    }

    /// The entry unit of a module.
    pub fn entry_of(&self, module: usize) -> (r: u32)
        ensures
            r == self@.entry_of(module),
    {
        if module < self.modules.len() {
            self.modules[module].entry
        } else {
            0
        }
    }

    pub fn step_import(&mut self, stage: u8, args: usize, incoming: Option<Value>) -> (r: Walked)
        ensures
            old(self)@.step_import(stage, args, incoming) == (final(self)@, r),
    {
        if stage == 0 {
            let c = Cont::Import { stage: 1 };
            return match self.arg_path(args) {
                Err(e) => (c, Err(e)),
                Ok(p) => (c, Ok(Yield::Need(Need::Import(p)))),
            };
        }
        let c = Cont::Import { stage: 2 };
        if stage == 2 {
            return self.hand_back(c, incoming, "internal: import value lost");
        }
        let answer = match incoming {
            Some(v) => v,
            None => {
                return self.stop(c, "internal: import answer lost");
            },
        };
        let m = match self.want_attrs(answer) {
            Ok(m) => m,
            Err(e) => {
                return (c, Err(e));
            },
        };
        let path = match self.answer_str(m, "path") {
            Ok(t) => t,
            Err(e) => {
                return (c, Err(e));
            },
        };
        match self.module_for(&self.text(path)) {
            None => self.stop(c, "internal: imported file not loaded"),
            Some(module) => {
                let env = self.new_env(EnvNode::Root);
                let unit = self.entry_of(module);
                let s = self.new_slot(SlotState::Thunk { module, unit, env });
                (c, Ok(Yield::Force(s)))
            },
        }
    }

    pub fn try_eval_result(&mut self, success: bool, v: Value) -> (r: Value)
        ensures
            old(self)@.try_eval_result(success, v) == (final(self)@, r),
    {
        let s = self.intern(&text_of("success"));
        let ss = self.value_slot(Value::Bool(success));
        let k = self.intern(&text_of("value"));
        let vs = self.value_slot(v);
        let mut made: Vec<(Sym, Slot)> = Vec::new();
        set_bind(&mut made, s, ss);
        set_bind(&mut made, k, vs);
        self.attrs_value(made)
    }

    pub fn step_try_eval(&mut self, started: bool, args: usize, incoming: Option<Value>) -> (r:
        Walked)
        ensures
            old(self)@.step_try_eval(started, args, incoming) == (final(self)@, r),
    {
        let c = Cont::TryEval { started: true };
        if !started {
            return match self.nth(args, 0) {
                Err(e) => (c, Err(e)),
                Ok(s) => (c, Ok(Yield::Force(s))),
            };
        }
        match incoming {
            None => self.stop(c, "internal: tryEval lost its value"),
            Some(v) => {
                let r = self.try_eval_result(true, v);
                (c, Ok(Yield::Done(r)))
            },
        }
    }

    pub fn step_ask(&mut self, asked: bool, need: Need, incoming: Option<Value>) -> (r: Walked)
        ensures
            old(self)@.step_ask(asked, need, incoming) == (final(self)@, r),
    {
        let c = Cont::Ask { asked: true, need };
        if !asked {
            return (c, Ok(Yield::Need(need)));
        }
        self.hand_back(c, incoming, "internal: path answer lost")
    }
}

} // verus!
