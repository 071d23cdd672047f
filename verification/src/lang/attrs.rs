//! Builtins over attribute sets, strings, paths and evaluation control.
use crate::lang::frames::{Begin, Cont, Finish, FloatAsk, Need};
use crate::lang::heap::{
    bind, contents, lookup, set_bind, set_lookup, ErrKind, Fault, Heap, HeapView, Slot, Sym, Value,
};
use crate::lang::ir::ParamView;
use crate::lang::lists::{one, two, Started};
use crate::lang::ops::{kind_name, type_text, Shape};
use crate::lang::quote::{byte_len, byte_len_of, byte_slice, byte_slice_of};
use crate::lang::strings::{
    base_name, compare_versions, dir_name, dir_name_of, legacy_base_name_of, version_order,
    version_parts, version_runs, Order,
};
use crate::lang::walks::{float_task, new_float_task, slots_in, slots_of};
use crate::text::{copy_of, text_of, Text};
use vstd::prelude::*;

verus! {

/// The entries of `b` whose names `a` binds too.
pub open spec fn common(a: Seq<(Sym, Slot)>, b: Seq<(Sym, Slot)>) -> Seq<(Sym, Slot)>
    decreases b.len(),
{
    if b.len() == 0 {
        b
    } else {
        let out = common(a, b.drop_last());
        if lookup(a, b.last().0) is Some {
            out.push(b.last())
        } else {
            out
        }
    }
}

/// The part of a string that `substring` takes, by byte positions.
pub open spec fn substring(t: Seq<char>, start: int, len: int) -> Seq<char> {
    let n = byte_len(t);
    if start >= n {
        Seq::empty()
    } else if len < 0 || start + len > n {
        byte_slice(t, start, n)
    } else {
        byte_slice(t, start, start + len)
    }
}

impl HeapView {
    /// `throw`: an error that `tryEval` catches.
    pub open spec fn bi_throw(self, args: usize) -> Started {
        match self.arg_str(args, 0) {
            (h, Err(e)) => (h, Err(e)),
            (h, Ok(text)) => (h, Err(Fault::Throw { kind: ErrKind::Thrown, text, tail: None })),
        }
    }

    /// `abort`: an error that nothing catches.
    pub open spec fn bi_abort(self, args: usize) -> Started {
        match self.arg_str(args, 0) {
            (h, Err(e)) => (h, Err(e)),
            (h, Ok(text)) => h.fail(
                "evaluation aborted with the following error message: '"@ + h.text(text) + "'"@,
            ),
        }
    }

    pub open spec fn bi_to_string(self, args: usize) -> Started {
        match self.argv(args, 0) {
            (h, Err(e)) => (h, Err(e)),
            (h, Ok(v)) => match v {
                Value::List(_) => match h.arg(args, 0) {
                    (h, Err(e)) => (h, Err(e)),
                    (h, Ok(s)) => {
                        let (h, t) = h.coerce_task(s);
                        (h, Ok(Begin::Sub(t)))
                    },
                },
                Value::Float(x) => (h, Ok(Begin::Sub(float_task(FloatAsk::Show(x))))),
                _ => match h.coerce_scalar(v) {
                    (h, Err(e)) => (h, Err(e)),
                    (h, Ok(t)) => {
                        let (h, s) = h.str_value(t);
                        (h, Ok(Begin::Done(s)))
                    },
                },
            },
        }
    }

    pub open spec fn bi_base_name_of(self, args: usize) -> Started {
        match self.argv(args, 0) {
            (h, Err(e)) => (h, Err(e)),
            (h, Ok(v)) => match v {
                Value::Str(t) => {
                    let (h, s) = h.str_value(base_name(h.text(t)));
                    (h, Ok(Begin::Done(s)))
                },
                Value::Path(t) => {
                    let (h, s) = h.str_value(base_name(h.text(t)));
                    (h, Ok(Begin::Done(s)))
                },
                _ => h.fail("expected a string but found "@ + type_text(v)),
            },
        }
    }

    pub open spec fn bi_dir_of(self, args: usize) -> Started {
        match self.argv(args, 0) {
            (h, Err(e)) => (h, Err(e)),
            (h, Ok(v)) => match v {
                Value::Path(t) => {
                    let (h, s) = h.path_value(dir_name(h.text(t)));
                    (h, Ok(Begin::Done(s)))
                },
                Value::Str(t) => {
                    let (h, s) = h.str_value(dir_name(h.text(t)));
                    (h, Ok(Begin::Done(s)))
                },
                _ => h.fail("expected a string but found "@ + type_text(v)),
            },
        }
    }

    /// One slot per entry holding its name.
    pub open spec fn name_slots(self, entries: Seq<(Sym, Slot)>, i: int, out: Seq<usize>) -> (
        HeapView,
        Seq<usize>,
    )
        decreases entries.len() - i,
    {
        if i >= entries.len() {
            (self, out)
        } else {
            let (h, s) = self.str_slot(self.sym_name(entries[i].0));
            h.name_slots(entries, i + 1, out.push(s))
        }
    }

    pub open spec fn bi_attr_names(self, args: usize) -> Started {
        match self.arg_attrs(args, 0) {
            (h, Err(e)) => (h, Err(e)),
            (h, Ok(m)) => {
                let (h, names) = h.name_slots(h.by_name(h.set(m)), 0, Seq::empty());
                let (h, v) = h.list_value(names);
                (h, Ok(Begin::Done(v)))
            },
        }
    }

    pub open spec fn bi_attr_values(self, args: usize) -> Started {
        match self.arg_attrs(args, 0) {
            (h, Err(e)) => (h, Err(e)),
            (h, Ok(m)) => {
                let (h, v) = h.list_value(slots_of(h.by_name(h.set(m))));
                (h, Ok(Begin::Done(v)))
            },
        }
    }

    /// A name argument and a set argument.
    pub open spec fn name_and_set(self, args: usize) -> (HeapView, Result<(usize, usize), Fault>) {
        match self.arg_str(args, 0) {
            (h, Err(e)) => (h, Err(e)),
            (h, Ok(name)) => match h.arg_attrs(args, 1) {
                (h, Err(e)) => (h, Err(e)),
                (h, Ok(m)) => (h, Ok((name, m))),
            },
        }
    }

    pub open spec fn bi_get_attr(self, args: usize) -> Started {
        match self.name_and_set(args) {
            (h, Err(e)) => (h, Err(e)),
            (h, Ok((name, m))) => {
                let (h, sym) = h.intern(h.text(name));
                match lookup(h.set(m), sym) {
                    Some(s) => (h, Ok(Begin::Force(s))),
                    None => h.fail("attribute '"@ + h.text(name) + "' missing"@),
                }
            },
        }
    }

    pub open spec fn bi_has_attr(self, args: usize) -> Started {
        match self.name_and_set(args) {
            (h, Err(e)) => (h, Err(e)),
            (h, Ok((name, m))) => {
                let (h, sym) = h.intern(h.text(name));
                (h, Ok(Begin::Done(Value::Bool(lookup(h.set(m), sym) is Some))))
            },
        }
    }

    pub open spec fn bi_remove_attrs(self, args: usize) -> Started {
        match self.arg_attrs(args, 0) {
            (h, Err(e)) => (h, Err(e)),
            (h, Ok(_)) => match h.arg_list(args, 1) {
                (h, Err(e)) => (h, Err(e)),
                (h, Ok(items)) => h.force_each(items, Finish::RemoveAttrs),
            },
        }
    }

    pub open spec fn bi_intersect_attrs(self, args: usize) -> Started {
        match self.arg_attrs(args, 0) {
            (h, Err(e)) => (h, Err(e)),
            (h, Ok(a)) => match h.arg_attrs(args, 1) {
                (h, Err(e)) => (h, Err(e)),
                (h, Ok(b)) => {
                    let (h, v) = h.attrs_value(common(h.set(a), h.set(b)));
                    (h, Ok(Begin::Done(v)))
                },
            },
        }
    }

    /// A string argument, then a list whose elements are forced.
    pub open spec fn str_then_each(self, args: usize, finish: Finish) -> Started {
        match self.arg_str(args, 0) {
            (h, Err(e)) => (h, Err(e)),
            (h, Ok(_)) => match h.arg_list(args, 1) {
                (h, Err(e)) => (h, Err(e)),
                (h, Ok(items)) => h.force_each(items, finish),
            },
        }
    }

    pub open spec fn bi_list_to_attrs(self, args: usize) -> Started {
        match self.arg_list(args, 0) {
            (h, Err(e)) => (h, Err(e)),
            (h, Ok(items)) => {
                let (h, name_sym) = h.intern("name"@);
                let (h, value_sym) = h.intern("value"@);
                let (h, out) = h.new_set(Seq::empty());
                (
                    h,
                    Ok(
                        Begin::Cont(
                            Cont::ListToAttrs { items, i: 0, out, cur: None, name_sym, value_sym },
                        ),
                    ),
                )
            },
        }
    }

    /// Unperformed applications of `f` to each name and value.
    pub open spec fn map_entries(
        self,
        f: Value,
        m: Seq<(Sym, Slot)>,
        i: int,
        out: Seq<(Sym, Slot)>,
    ) -> (HeapView, Seq<(Sym, Slot)>)
        decreases m.len() - i,
    {
        if i >= m.len() {
            (self, out)
        } else {
            let (h, name) = self.str_slot(self.sym_name(m[i].0));
            let (h, s) = h.pending_slot(f, seq![name, m[i].1]);
            h.map_entries(f, m, i + 1, out.push((m[i].0, s)))
        }
    }

    pub open spec fn bi_map_attrs(self, args: usize) -> Started {
        match self.argv(args, 0) {
            (h, Err(e)) => (h, Err(e)),
            (h, Ok(f)) => match h.arg_attrs(args, 1) {
                (h, Err(e)) => (h, Err(e)),
                (h, Ok(m)) => {
                    let (h, out) = h.map_entries(f, h.set(m), 0, Seq::empty());
                    let (h, v) = h.attrs_value(out);
                    (h, Ok(Begin::Done(v)))
                },
            },
        }
    }

    pub open spec fn bi_string_length(self, args: usize) -> Started {
        match self.arg_str(args, 0) {
            (h, Err(e)) => (h, Err(e)),
            (h, Ok(t)) => (h, Ok(Begin::Done(Value::Int(byte_len(h.text(t)) as i64)))),
        }
    }

    pub open spec fn bi_substring(self, args: usize) -> Started {
        match self.arg_int(args, 0) {
            (h, Err(e)) => (h, Err(e)),
            (h, Ok(start)) => match h.arg_int(args, 1) {
                (h, Err(e)) => (h, Err(e)),
                (h, Ok(len)) => match h.arg_str(args, 2) {
                    (h, Err(e)) => (h, Err(e)),
                    (h, Ok(t)) => if start < 0 {
                        h.fail("negative start position in 'substring'"@)
                    } else {
                        let (h, v) = h.str_value(substring(h.text(t), start as int, len as int));
                        (h, Ok(Begin::Done(v)))
                    },
                },
            },
        }
    }

    pub open spec fn bi_replace_strings(self, args: usize) -> Started {
        match self.arg_list(args, 0) {
            (h, Err(e)) => (h, Err(e)),
            (h, Ok(from)) => match h.arg_list(args, 1) {
                (h, Err(e)) => (h, Err(e)),
                (h, Ok(to)) => match h.arg_str(args, 2) {
                    (h, Err(e)) => (h, Err(e)),
                    (h, Ok(_)) => if h.list(from).len() != h.list(to).len() {
                        h.fail(
                            "'from' and 'to' arguments to 'replaceStrings' have different lengths"@,
                        )
                    } else {
                        let (h, froms) = h.new_list(Seq::empty());
                        let (h, plan) = h.new_work(Seq::empty());
                        let (h, used) = h.new_list(Seq::empty());
                        let (h, tos) = h.new_list(Seq::empty());
                        (
                            h,
                            Ok(
                                Begin::Cont(
                                    Cont::Replace { stage: 0, froms, plan, used, k: 0, tos },
                                ),
                            ),
                        )
                    },
                },
            },
        }
    }

    /// One slot per text.
    pub open spec fn text_slots(self, parts: Seq<Seq<char>>, i: int, out: Seq<usize>) -> (
        HeapView,
        Seq<usize>,
    )
        decreases parts.len() - i,
    {
        if i >= parts.len() {
            (self, out)
        } else {
            let (h, s) = self.str_slot(parts[i]);
            h.text_slots(parts, i + 1, out.push(s))
        }
    }

    pub open spec fn bi_split_version(self, args: usize) -> Started {
        match self.arg_str(args, 0) {
            (h, Err(e)) => (h, Err(e)),
            (h, Ok(t)) => {
                let (h, out) = h.text_slots(version_runs(h.text(t)), 0, Seq::empty());
                let (h, v) = h.list_value(out);
                (h, Ok(Begin::Done(v)))
            },
        }
    }

    pub open spec fn bi_compare_versions(self, args: usize) -> Started {
        match self.arg_str(args, 0) {
            (h, Err(e)) => (h, Err(e)),
            (h, Ok(a)) => match h.arg_str(args, 1) {
                (h, Err(e)) => (h, Err(e)),
                (h, Ok(b)) => {
                    let n = match version_order(h.text(a), h.text(b)) {
                        Order::Less => -1i64,
                        Order::Equal => 0i64,
                        Order::Greater => 1i64,
                    };
                    (h, Ok(Begin::Done(Value::Int(n))))
                },
            },
        }
    }

    pub open spec fn bi_seq(self, args: usize) -> Started {
        match self.argv(args, 0) {
            (h, Err(e)) => (h, Err(e)),
            (h, Ok(_)) => match h.argv(args, 1) {
                (h, Err(e)) => (h, Err(e)),
                (h, Ok(v)) => (h, Ok(Begin::Done(v))),
            },
        }
    }

    pub open spec fn bi_deep_seq(self, args: usize) -> Started {
        match self.arg(args, 0) {
            (h, Err(e)) => (h, Err(e)),
            (h, Ok(s)) => {
                let (h, work) = h.new_list(seq![s]);
                let (h, seen) = h.new_list(Seq::empty());
                (h, Ok(Begin::Cont(Cont::DeepSeq { work, seen, tail: false })))
            },
        }
    }

    /// The path argument as a text.
    pub open spec fn arg_path(self, args: usize) -> (HeapView, Result<usize, Fault>) {
        match self.argv(args, 0) {
            (h, Err(e)) => (h, Err(e)),
            (h, Ok(v)) => match v {
                Value::Path(p) => (h, Ok(p)),
                Value::Str(s) => (h, Ok(s)),
                _ => h.fail("cannot coerce "@ + type_text(v) + " to a path"@),
            },
        }
    }

    /// Asks the scheduler about the path argument.
    pub open spec fn ask_path(self, args: usize, mk: spec_fn(usize) -> Need) -> Started {
        match self.arg_path(args) {
            (h, Err(e)) => (h, Err(e)),
            (h, Ok(p)) => (h, Ok(Begin::Cont(Cont::Ask { asked: false, need: mk(p) }))),
        }
    }

    /// Asks the scheduler about the string argument.
    pub open spec fn ask_str(self, args: usize, mk: spec_fn(usize) -> Need) -> Started {
        match self.arg_str(args, 0) {
            (h, Err(e)) => (h, Err(e)),
            (h, Ok(p)) => (h, Ok(Begin::Cont(Cont::Ask { asked: false, need: mk(p) }))),
        }
    }

    /// Which fields of a function have defaults.
    pub open spec fn field_flags(
        self,
        module: usize,
        fields: Seq<(u32, Option<u32>)>,
        i: int,
        out: Seq<(Sym, Slot)>,
    ) -> (HeapView, Seq<(Sym, Slot)>)
        decreases fields.len() - i,
    {
        if i >= fields.len() {
            (self, out)
        } else {
            let (h, g) = self.intern(self.field_name(module, fields[i].0));
            let (h, s) = h.value_slot(Value::Bool(fields[i].1 is Some));
            h.field_flags(module, fields, i + 1, bind(out, g, s))
        }
    }

    pub open spec fn bi_function_args(self, args: usize) -> Started {
        match self.argv(args, 0) {
            (h, Err(e)) => (h, Err(e)),
            (h, Ok(f)) => match f {
                Value::Closure { module, unit, .. } => match h.param_at(module, unit) {
                    None => h.fail("internal: bad closure unit"@),
                    Some(Some(ParamView::Formals { fields, .. })) => {
                        let (h, out) = h.field_flags(module, fields, 0, Seq::empty());
                        let (h, v) = h.attrs_value(out);
                        (h, Ok(Begin::Done(v)))
                    },
                    Some(_) => {
                        let (h, v) = h.attrs_value(Seq::empty());
                        (h, Ok(Begin::Done(v)))
                    },
                },
                Value::Builtin { .. } => {
                    let (h, v) = h.attrs_value(Seq::empty());
                    (h, Ok(Begin::Done(v)))
                },
                _ => h.fail("'functionArgs' requires a function, got "@ + type_text(f)),
            },
        }
    }

    pub open spec fn bi_zip_attrs_with(self, args: usize) -> Started {
        match self.argv(args, 0) {
            (h, Err(e)) => (h, Err(e)),
            (h, Ok(f)) => if !(f is Closure || f is Builtin) {
                h.fail("expected a function but found "@ + type_text(f))
            } else {
                match h.arg_list(args, 1) {
                    (h, Err(e)) => (h, Err(e)),
                    (h, Ok(items)) => h.force_each(items, Finish::ZipAttrs),
                }
            },
        }
    }
}

/// Whether a value can be called.
pub fn is_function(v: Value) -> (r: bool)
    ensures
        r == (v is Closure || v is Builtin),
{
    match v {
        Value::Closure { .. } => true,
        Value::Builtin { .. } => true,
        _ => false,
    }
}

impl Heap {
    pub fn bi_throw(&mut self, args: usize) -> (r: Result<Begin, Fault>)
        ensures
            old(self)@.bi_throw(args) == (final(self)@, r),
    {
        match self.arg_str(args, 0) {
            Err(e) => Err(e),
            Ok(text) => Err(Fault::Throw { kind: ErrKind::Thrown, text, tail: None }),
        }
    }

    pub fn bi_abort(&mut self, args: usize) -> (r: Result<Begin, Fault>)
        ensures
            old(self)@.bi_abort(args) == (final(self)@, r),
    {
        match self.arg_str(args, 0) {
            Err(e) => Err(e),
            Ok(text) => {
                let t = self.text(text);
                self.fail_with("evaluation aborted with the following error message: '", &t, "'")
            },
        }
    }

    pub fn bi_to_string(&mut self, args: usize) -> (r: Result<Begin, Fault>)
        ensures
            old(self)@.bi_to_string(args) == (final(self)@, r),
    {
        let v = match self.argv(args, 0) {
            Ok(v) => v,
            Err(e) => {
                return Err(e);
            },
        };
        match v {
            Value::List(_) => match self.arg(args, 0) {
                Err(e) => Err(e),
                Ok(s) => Ok(Begin::Sub(self.coerce_task(s))),
            },
            Value::Float(x) => Ok(Begin::Sub(new_float_task(FloatAsk::Show(x)))),
            _ => match self.coerce_scalar(v) {
                Err(e) => Err(e),
                Ok(t) => Ok(Begin::Done(self.str_value(t))),
            },
        }
    }

    pub fn bi_base_name_of(&mut self, args: usize) -> (r: Result<Begin, Fault>)
        ensures
            old(self)@.bi_base_name_of(args) == (final(self)@, r),
    {
        let v = match self.argv(args, 0) {
            Ok(v) => v,
            Err(e) => {
                return Err(e);
            },
        };
        match v {
            Value::Str(t) => {
                let b = legacy_base_name_of(&self.text(t));
                Ok(Begin::Done(self.str_value(b)))
            },
            Value::Path(t) => {
                let b = legacy_base_name_of(&self.text(t));
                Ok(Begin::Done(self.str_value(b)))
            },
            _ => self.fail_type("expected a string but found ", v),
        }
    }

    pub fn bi_dir_of(&mut self, args: usize) -> (r: Result<Begin, Fault>)
        ensures
            old(self)@.bi_dir_of(args) == (final(self)@, r),
    {
        let v = match self.argv(args, 0) {
            Ok(v) => v,
            Err(e) => {
                return Err(e);
            },
        };
        match v {
            Value::Path(t) => {
                let d = dir_name_of(&self.text(t));
                Ok(Begin::Done(self.path_value(d)))
            },
            Value::Str(t) => {
                let d = dir_name_of(&self.text(t));
                Ok(Begin::Done(self.str_value(d)))
            },
            _ => self.fail_type("expected a string but found ", v),
        }
    }

    pub fn bi_attr_names(&mut self, args: usize) -> (r: Result<Begin, Fault>)
        ensures
            old(self)@.bi_attr_names(args) == (final(self)@, r),
    {
        match self.arg_attrs(args, 0) {
            Err(e) => Err(e),
            Ok(m) => {
                let entries = self.by_name(&self.set(m));
                let ghost h0 = self@;
                let mut out: Vec<usize> = Vec::new();
                let mut i: usize = 0;
                while i < entries.len()
                    invariant
                        i <= entries.len(),
                        self@.name_slots(entries@, i as int, out@) == h0.name_slots(
                            entries@,
                            0,
                            Seq::empty(),
                        ),
                    decreases entries.len() - i,
                {
                    let name = self.sym_name(entries[i].0);
                    let s = self.str_slot(name);
                    out.push(s);
                    i += 1;
                }
                Ok(Begin::Done(self.list_value(out)))
            },
        }
    }

    pub fn bi_attr_values(&mut self, args: usize) -> (r: Result<Begin, Fault>)
        ensures
            old(self)@.bi_attr_values(args) == (final(self)@, r),
    {
        match self.arg_attrs(args, 0) {
            Err(e) => Err(e),
            Ok(m) => {
                let entries = self.by_name(&self.set(m));
                Ok(Begin::Done(self.list_value(slots_in(&entries))))
            },
        }
    }

    fn name_and_set(&mut self, args: usize) -> (r: Result<(usize, usize), Fault>)
        ensures
            old(self)@.name_and_set(args) == (final(self)@, r),
    {
        match self.arg_str(args, 0) {
            Err(e) => Err(e),
            Ok(name) => match self.arg_attrs(args, 1) {
                Err(e) => Err(e),
                Ok(m) => Ok((name, m)),
            },
        }
    }

    pub fn bi_get_attr(&mut self, args: usize) -> (r: Result<Begin, Fault>)
        ensures
            old(self)@.bi_get_attr(args) == (final(self)@, r),
    {
        match self.name_and_set(args) {
            Err(e) => Err(e),
            Ok((name, m)) => {
                let t = self.text(name);
                let sym = self.intern(&t);
                match self.set_get(m, sym) {
                    Some(s) => Ok(Begin::Force(s)),
                    None => {
                        let t = self.text(name);
                        self.fail_with("attribute '", &t, "' missing")
                    },
                }
            },
        }
    }

    pub fn bi_has_attr(&mut self, args: usize) -> (r: Result<Begin, Fault>)
        ensures
            old(self)@.bi_has_attr(args) == (final(self)@, r),
    {
        match self.name_and_set(args) {
            Err(e) => Err(e),
            Ok((name, m)) => {
                let t = self.text(name);
                let sym = self.intern(&t);
                let found = self.set_get(m, sym).is_some();
                Ok(Begin::Done(Value::Bool(found)))
            },
        }
    }

    pub fn bi_remove_attrs(&mut self, args: usize) -> (r: Result<Begin, Fault>)
        ensures
            old(self)@.bi_remove_attrs(args) == (final(self)@, r),
    {
        match self.arg_attrs(args, 0) {
            Err(e) => Err(e),
            Ok(_) => match self.arg_list(args, 1) {
                Err(e) => Err(e),
                Ok(items) => self.force_each(items, Finish::RemoveAttrs),
            },
        }
    }

    pub fn bi_intersect_attrs(&mut self, args: usize) -> (r: Result<Begin, Fault>)
        ensures
            old(self)@.bi_intersect_attrs(args) == (final(self)@, r),
    {
        match self.arg_attrs(args, 0) {
            Err(e) => Err(e),
            Ok(a) => match self.arg_attrs(args, 1) {
                Err(e) => Err(e),
                Ok(b) => {
                    let x = self.set(a);
                    let y = self.set(b);
                    let mut out: Vec<(Sym, Slot)> = Vec::new();
                    let mut i: usize = 0;
                    while i < y.len()
                        invariant
                            i <= y.len(),
                            out@ == common(x@, y@.take(i as int)),
                        decreases y.len() - i,
                    {
                        proof {
                            assert(y@.take(i + 1).drop_last() == y@.take(i as int));
                        }
                        if set_lookup(&x, y[i].0).is_some() {
                            out.push(y[i]);
                        }
                        i += 1;
                    }
                    assert(y@.take(y.len() as int) == y@);
                    Ok(Begin::Done(self.attrs_value(out)))
                },
            },
        }
    }

    pub fn str_then_each(&mut self, args: usize, finish: Finish) -> (r: Result<Begin, Fault>)
        ensures
            old(self)@.str_then_each(args, finish) == (final(self)@, r),
    {
        match self.arg_str(args, 0) {
            Err(e) => Err(e),
            Ok(_) => match self.arg_list(args, 1) {
                Err(e) => Err(e),
                Ok(items) => self.force_each(items, finish),
            },
        }
    }

    pub fn bi_list_to_attrs(&mut self, args: usize) -> (r: Result<Begin, Fault>)
        ensures
            old(self)@.bi_list_to_attrs(args) == (final(self)@, r),
    {
        match self.arg_list(args, 0) {
            Err(e) => Err(e),
            Ok(items) => {
                let name_sym = self.intern(&text_of("name"));
                let value_sym = self.intern(&text_of("value"));
                let out = self.new_set(Vec::new());
                Ok(
                    Begin::Cont(
                        Cont::ListToAttrs { items, i: 0, out, cur: None, name_sym, value_sym },
                    ),
                )
            },
        }
    }

    pub fn bi_map_attrs(&mut self, args: usize) -> (r: Result<Begin, Fault>)
        ensures
            old(self)@.bi_map_attrs(args) == (final(self)@, r),
    {
        match self.argv(args, 0) {
            Err(e) => Err(e),
            Ok(f) => match self.arg_attrs(args, 1) {
                Err(e) => Err(e),
                Ok(m) => {
                    let set = self.set(m);
                    let ghost h0 = self@;
                    let mut out: Vec<(Sym, Slot)> = Vec::new();
                    let mut i: usize = 0;
                    while i < set.len()
                        invariant
                            i <= set.len(),
                            self@.map_entries(f, set@, i as int, out@) == h0.map_entries(
                                f,
                                set@,
                                0,
                                Seq::empty(),
                            ),
                        decreases set.len() - i,
                    {
                        let name = self.sym_name(set[i].0);
                        let name = self.str_slot(name);
                        let s = self.pending_slot(f, two(name, set[i].1));
                        out.push((set[i].0, s));
                        i += 1;
                    }
                    Ok(Begin::Done(self.attrs_value(out)))
                },
            },
        }
    }

    pub fn bi_string_length(&mut self, args: usize) -> (r: Result<Begin, Fault>)
        ensures
            old(self)@.bi_string_length(args) == (final(self)@, r),
    {
        match self.arg_str(args, 0) {
            Err(e) => Err(e),
            Ok(t) => Ok(Begin::Done(Value::Int(byte_len_of(&self.text(t)) as i64))),
        }
    }

    pub fn bi_substring(&mut self, args: usize) -> (r: Result<Begin, Fault>)
        ensures
            old(self)@.bi_substring(args) == (final(self)@, r),
    {
        let start = match self.arg_int(args, 0) {
            Ok(n) => n,
            Err(e) => {
                return Err(e);
            },
        };
        let len = match self.arg_int(args, 1) {
            Ok(n) => n,
            Err(e) => {
                return Err(e);
            },
        };
        let t = match self.arg_str(args, 2) {
            Ok(t) => t,
            Err(e) => {
                return Err(e);
            },
        };
        if start < 0 {
            return self.fail_str("negative start position in 'substring'");
        }
        let t = self.text(t);
        let n = byte_len_of(&t);
        let from = start as u128;
        let out = if from >= n {
            Vec::new()
        } else if len < 0 || from + len as u128 > n {
            byte_slice_of(&t, from, n)
        } else {
            byte_slice_of(&t, from, from + len as u128)
        };
        assert(out@ =~= substring(t@, start as int, len as int));
        Ok(Begin::Done(self.str_value(out)))
    }

    pub fn bi_replace_strings(&mut self, args: usize) -> (r: Result<Begin, Fault>)
        ensures
            old(self)@.bi_replace_strings(args) == (final(self)@, r),
    {
        let from = match self.arg_list(args, 0) {
            Ok(l) => l,
            Err(e) => {
                return Err(e);
            },
        };
        let to = match self.arg_list(args, 1) {
            Ok(l) => l,
            Err(e) => {
                return Err(e);
            },
        };
        match self.arg_str(args, 2) {
            Ok(_) => {},
            Err(e) => {
                return Err(e);
            },
        }
        if self.list_len(from) != self.list_len(to) {
            return self.fail_str(
                "'from' and 'to' arguments to 'replaceStrings' have different lengths",
            );
        }
        let froms = self.new_list(Vec::new());
        let plan = self.new_work(Vec::new());
        let used = self.new_list(Vec::new());
        let tos = self.new_list(Vec::new());
        Ok(Begin::Cont(Cont::Replace { stage: 0, froms, plan, used, k: 0, tos }))
    }

    /// One slot per text.
    pub fn text_slots(&mut self, parts: &Vec<Text>) -> (r: Vec<usize>)
        ensures
            old(self)@.text_slots(contents(parts@), 0, Seq::empty()) == (final(self)@, r@),
    {
        let mut out: Vec<usize> = Vec::new();
        let mut i: usize = 0;
        while i < parts.len()
            invariant
                i <= parts.len(),
                self@.text_slots(contents(parts@), i as int, out@) == old(self)@.text_slots(
                    contents(parts@),
                    0,
                    Seq::empty(),
                ),
            decreases parts.len() - i,
        {
            let s = self.str_slot(copy_of(&parts[i]));
            out.push(s);
            i += 1;
        }
        out
    }

    pub fn bi_split_version(&mut self, args: usize) -> (r: Result<Begin, Fault>)
        ensures
            old(self)@.bi_split_version(args) == (final(self)@, r),
    {
        match self.arg_str(args, 0) {
            Err(e) => Err(e),
            Ok(t) => {
                let parts = version_parts(&self.text(t));
                let out = self.text_slots(&parts);
                Ok(Begin::Done(self.list_value(out)))
            },
        }
    }

    pub fn bi_compare_versions(&mut self, args: usize) -> (r: Result<Begin, Fault>)
        ensures
            old(self)@.bi_compare_versions(args) == (final(self)@, r),
    {
        match self.arg_str(args, 0) {
            Err(e) => Err(e),
            Ok(a) => match self.arg_str(args, 1) {
                Err(e) => Err(e),
                Ok(b) => {
                    let n: i64 = match compare_versions(&self.text(a), &self.text(b)) {
                        Order::Less => -1,
                        Order::Equal => 0,
                        Order::Greater => 1,
                    };
                    Ok(Begin::Done(Value::Int(n)))
                },
            },
        }
    }

    pub fn bi_seq(&mut self, args: usize) -> (r: Result<Begin, Fault>)
        ensures
            old(self)@.bi_seq(args) == (final(self)@, r),
    {
        match self.argv(args, 0) {
            Err(e) => Err(e),
            Ok(_) => match self.argv(args, 1) {
                Err(e) => Err(e),
                Ok(v) => Ok(Begin::Done(v)),
            },
        }
    }

    pub fn bi_deep_seq(&mut self, args: usize) -> (r: Result<Begin, Fault>)
        ensures
            old(self)@.bi_deep_seq(args) == (final(self)@, r),
    {
        match self.arg(args, 0) {
            Err(e) => Err(e),
            Ok(s) => {
                let work = self.new_list(one(s));
                let seen = self.new_list(Vec::new());
                Ok(Begin::Cont(Cont::DeepSeq { work, seen, tail: false }))
            },
        }
    }

    pub fn arg_path(&mut self, args: usize) -> (r: Result<usize, Fault>)
        ensures
            old(self)@.arg_path(args) == (final(self)@, r),
    {
        let v = match self.argv(args, 0) {
            Ok(v) => v,
            Err(e) => {
                return Err(e);
            },
        };
        match v {
            Value::Path(p) => Ok(p),
            Value::Str(s) => Ok(s),
            _ => self.fail_with("cannot coerce ", &text_of(kind_name(v)), " to a path"),
        }
    }

    pub fn bi_function_args(&mut self, args: usize) -> (r: Result<Begin, Fault>)
        ensures
            old(self)@.bi_function_args(args) == (final(self)@, r),
    {
        let f = match self.argv(args, 0) {
            Ok(v) => v,
            Err(e) => {
                return Err(e);
            },
        };
        match f {
            Value::Closure { module, unit, .. } => match self.shape_at(module, unit) {
                Shape::NoUnit => self.fail_str("internal: bad closure unit"),
                Shape::Formals { fields, .. } => {
                    let ghost h0 = self@;
                    let mut out: Vec<(Sym, Slot)> = Vec::new();
                    let mut i: usize = 0;
                    while i < fields.len()
                        invariant
                            i <= fields.len(),
                            self@.field_flags(module, fields@, i as int, out@) == h0.field_flags(
                                module,
                                fields@,
                                0,
                                Seq::empty(),
                            ),
                        decreases fields.len() - i,
                    {
                        let name = self.field_name(module, fields[i].0);
                        let g = self.intern(&name);
                        let s = self.value_slot(Value::Bool(fields[i].1.is_some()));
                        set_bind(&mut out, g, s);
                        i += 1;
                    }
                    Ok(Begin::Done(self.attrs_value(out)))
                },
                _ => Ok(Begin::Done(self.attrs_value(Vec::new()))),
            },
            Value::Builtin { .. } => Ok(Begin::Done(self.attrs_value(Vec::new()))),
            _ => self.fail_type("'functionArgs' requires a function, got ", f),
        }
    }

    pub fn bi_zip_attrs_with(&mut self, args: usize) -> (r: Result<Begin, Fault>)
        ensures
            old(self)@.bi_zip_attrs_with(args) == (final(self)@, r),
    {
        match self.argv(args, 0) {
            Err(e) => Err(e),
            Ok(f) => {
                if !is_function(f) {
                    return self.fail_type("expected a function but found ", f);
                }
                match self.arg_list(args, 1) {
                    Err(e) => Err(e),
                    Ok(items) => self.force_each(items, Finish::ZipAttrs),
                }
            },
        }
    }
}

} // verus!
