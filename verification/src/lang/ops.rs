//! The operations that every part of the machine shares: raising failures,
//! looking at values, and reading compiled modules.
use crate::lang::heap::{
    lookup, Fault, ErrKind, Heap, HeapView, Slot, SlotState, Sym, Value,
};
use crate::lang::ir::{ConstView, Op, Param, ParamView};
use crate::text::{append_all, append_int, append_str, copy_of, int_text, text_of, Text};
use vstd::prelude::*;

verus! {

/// What a value is called in messages.
pub open spec fn type_text(v: Value) -> Seq<char> {
    match v {
        Value::Int(_) => "an integer"@,
        Value::Float(_) => "a float"@,
        Value::Bool(_) => "a Boolean"@,
        Value::Null => "null"@,
        Value::Str(_) => "a string"@,
        Value::Path(_) => "a path"@,
        Value::List(_) => "a list"@,
        Value::Attrs(_) => "a set"@,
        Value::Closure { .. } => "a function"@,
        Value::Builtin { .. } => "a function"@,
    }
}

/// What a value is called in messages.
pub fn kind_name(v: Value) -> (r: &'static str)
    ensures
        r@ == type_text(v),
{
    match v {
        Value::Int(_) => "an integer",
        Value::Float(_) => "a float",
        Value::Bool(_) => "a Boolean",
        Value::Null => "null",
        Value::Str(_) => "a string",
        Value::Path(_) => "a path",
        Value::List(_) => "a list",
        Value::Attrs(_) => "a set",
        Value::Closure { .. } => "a function",
        Value::Builtin { .. } => "a function",
    }
}

/// The sequence from its last element to its first.
pub fn reversed<T: Copy>(v: &Vec<T>) -> (r: Vec<T>)
    ensures
        r@ == v@.reverse(),
{
    let mut r: Vec<T> = Vec::new();
    let mut i: usize = v.len();
    while i > 0
        invariant
            i <= v.len(),
            r@ == v@.reverse().take(v.len() - i),
        decreases i,
    {
        i -= 1;
        r.push(v[i]);
    }
    r
}

impl HeapView {
    /// An ordinary evaluation error with this message.
    pub open spec fn fail<T>(self, msg: Seq<char>) -> (HeapView, Result<T, Fault>) {
        let (h, text) = self.new_text(msg);
        (h, Err(Fault::Throw { kind: ErrKind::Eval, text, tail: None }))
    }

    /// A report that something has no implementation.
    pub open spec fn missing<T>(self, what: Seq<char>) -> (HeapView, Result<T, Fault>) {
        let (h, text) = self.new_text(what);
        (h, Err(Fault::Unimplemented(text)))
    }

    /// The short form of a value in messages. A float's digits follow
    /// separately.
    pub open spec fn shown(self, v: Value) -> Seq<char> {
        match v {
            Value::Int(n) => int_text(n as int),
            Value::Float(_) => Seq::empty(),
            Value::Bool(b) => if b {
                "true"@
            } else {
                "false"@
            },
            Value::Null => "null"@,
            Value::Str(s) => "\""@ + self.text(s) + "\""@,
            Value::Path(p) => self.text(p),
            Value::List(_) => "[ ... ]"@,
            Value::Attrs(_) => "{ ... }"@,
            Value::Closure { .. } => "<LAMBDA>"@,
            Value::Builtin { .. } => "<LAMBDA>"@,
        }
    }

    /// An error that names what was found and shows it.
    pub open spec fn fail_shown<T>(self, lead: Seq<char>, v: Value) -> (HeapView, Result<T, Fault>) {
        let (h, text) = self.new_text(lead + type_text(v) + ": "@ + self.shown(v));
        let tail = match v {
            Value::Float(x) => Some(x),
            _ => None,
        };
        (h, Err(Fault::Throw { kind: ErrKind::Eval, text, tail }))
    }

    /// The memoized value of a slot, if it has been forced.
    pub open spec fn peek(self, s: Slot) -> Option<Value> {
        match self.slot(s) {
            SlotState::Value(v) => Some(v),
            _ => None,
        }
    }

    /// The value of a slot that the machine has already forced.
    pub open spec fn forced(self, s: Slot) -> (HeapView, Result<Value, Fault>) {
        match self.peek(s) {
            Some(v) => (self, Ok(v)),
            None => self.fail("internal: value read before it was forced"@),
        }
    }

    pub open spec fn value_slot(self, v: Value) -> (HeapView, Slot) {
        self.new_slot(SlotState::Value(v))
    }

    pub open spec fn str_value(self, t: Seq<char>) -> (HeapView, Value) {
        let (h, id) = self.new_text(t);
        (h, Value::Str(id))
    }

    pub open spec fn path_value(self, t: Seq<char>) -> (HeapView, Value) {
        let (h, id) = self.new_text(t);
        (h, Value::Path(id))
    }

    pub open spec fn list_value(self, l: Seq<usize>) -> (HeapView, Value) {
        let (h, id) = self.new_list(l);
        (h, Value::List(id))
    }

    pub open spec fn attrs_value(self, s: Seq<(Sym, Slot)>) -> (HeapView, Value) {
        let (h, id) = self.new_set(s);
        (h, Value::Attrs(id))
    }

    /// A slot holding a string.
    pub open spec fn str_slot(self, t: Seq<char>) -> (HeapView, Slot) {
        let (h, v) = self.str_value(t);
        h.value_slot(v)
    }

    /// A slot holding an unperformed application.
    pub open spec fn pending_slot(self, f: Value, args: Seq<usize>) -> (HeapView, Slot) {
        let (h, id) = self.new_list(args);
        h.new_slot(SlotState::PendingApply { f, args: id })
    }

    /// The value as a list, or a complaint.
    pub open spec fn want_list(self, v: Value) -> (HeapView, Result<usize, Fault>) {
        match v {
            Value::List(l) => (self, Ok(l)),
            _ => self.fail("expected a list but found "@ + type_text(v)),
        }
    }

    pub open spec fn want_attrs(self, v: Value) -> (HeapView, Result<usize, Fault>) {
        match v {
            Value::Attrs(s) => (self, Ok(s)),
            _ => self.fail("expected a set but found "@ + type_text(v)),
        }
    }

    pub open spec fn want_int(self, v: Value) -> (HeapView, Result<i64, Fault>) {
        match v {
            Value::Int(n) => (self, Ok(n)),
            _ => self.fail("expected an integer but found "@ + type_text(v)),
        }
    }

    pub open spec fn want_str(self, v: Value) -> (HeapView, Result<usize, Fault>) {
        match v {
            Value::Str(s) => (self, Ok(s)),
            _ => self.fail("expected a string but found "@ + type_text(v)),
        }
    }

    pub open spec fn want_bool(self, v: Value) -> (HeapView, Result<bool, Fault>) {
        match v {
            Value::Bool(b) => (self, Ok(b)),
            _ => self.fail("expected a Boolean but found "@ + type_text(v)),
        }
    }

    /// The text of a string or a path, where nothing else will do.
    pub open spec fn coerce_interpolated(self, v: Value) -> (HeapView, Result<usize, Fault>) {
        match v {
            Value::Str(s) => (self, Ok(s)),
            Value::Path(p) => (self, Ok(p)),
            _ => self.fail("cannot coerce "@ + type_text(v) + " to a string"@),
        }
    }

    /// Argument `i` of a builtin.
    pub open spec fn arg(self, args: usize, i: usize) -> (HeapView, Result<Slot, Fault>) {
        if i < self.list(args).len() {
            (self, Ok(self.list(args)[i as int]))
        } else {
            self.fail("internal: missing builtin argument"@)
        }
    }

    /// The already forced value of argument `i`.
    pub open spec fn argv(self, args: usize, i: usize) -> (HeapView, Result<Value, Fault>) {
        match self.arg(args, i) {
            (h, Err(e)) => (h, Err(e)),
            (h, Ok(s)) => h.forced(s),
        }
    }

    /// Element `i` of a list.
    pub open spec fn nth(self, items: usize, i: usize) -> (HeapView, Result<Slot, Fault>) {
        if i < self.list(items).len() {
            (self, Ok(self.list(items)[i as int]))
        } else {
            self.fail("internal: list position lost"@)
        }
    }

    pub open spec fn arg_list(self, args: usize, i: usize) -> (HeapView, Result<usize, Fault>) {
        match self.argv(args, i) {
            (h, Err(e)) => (h, Err(e)),
            (h, Ok(v)) => h.want_list(v),
        }
    }

    pub open spec fn arg_attrs(self, args: usize, i: usize) -> (HeapView, Result<usize, Fault>) {
        match self.argv(args, i) {
            (h, Err(e)) => (h, Err(e)),
            (h, Ok(v)) => h.want_attrs(v),
        }
    }

    pub open spec fn arg_str(self, args: usize, i: usize) -> (HeapView, Result<usize, Fault>) {
        match self.argv(args, i) {
            (h, Err(e)) => (h, Err(e)),
            (h, Ok(v)) => h.want_str(v),
        }
    }

    pub open spec fn arg_int(self, args: usize, i: usize) -> (HeapView, Result<i64, Fault>) {
        match self.argv(args, i) {
            (h, Err(e)) => (h, Err(e)),
            (h, Ok(v)) => h.want_int(v),
        }
    }

    /// The slot a set binds a name to, by the name's symbol.
    pub open spec fn attr(self, set: usize, name: Seq<char>) -> (HeapView, Option<Slot>) {
        let (h, sym) = self.intern(name);
        (h, lookup(h.set(set), sym))
    }

    // -- compiled modules ----------------------------------------------------

    pub open spec fn op_at(self, module: usize, unit: u32, ip: usize) -> Option<Op> {
        if module < self.modules.len() && unit < self.modules[module as int].units.len() && ip
            < self.modules[module as int].units[unit as int].ops.len() {
            Some(self.modules[module as int].units[unit as int].ops[ip as int])
        } else {
            None
        }
    }

    pub open spec fn const_at(self, module: usize, idx: u32) -> Option<ConstView> {
        if module < self.modules.len() && idx < self.modules[module as int].consts.len() {
            Some(self.modules[module as int].consts[idx as int])
        } else {
            None
        }
    }

    /// A module's own name for a symbol.
    pub open spec fn local_name(self, module: usize, sym: u32) -> Option<Seq<char>> {
        if module < self.modules.len() && sym < self.modules[module as int].symbols.len() {
            Some(self.modules[module as int].symbols[sym as int])
        } else {
            None
        }
    }

    /// A module's name for a field, empty where it has none.
    pub open spec fn field_name(self, module: usize, sym: u32) -> Seq<char> {
        match self.local_name(module, sym) {
            Some(n) => n,
            None => Seq::empty(),
        }
    }

    /// A unit's parameter: nothing where there is no such unit.
    pub open spec fn param_at(self, module: usize, unit: u32) -> Option<Option<ParamView>> {
        if module < self.modules.len() && unit < self.modules[module as int].units.len() {
            Some(self.modules[module as int].units[unit as int].param)
        } else {
            None
        }
    }

    /// The global symbol for a module-local one.
    pub open spec fn msym(self, module: usize, sym: u32) -> (HeapView, Result<Sym, Fault>) {
        match self.local_name(module, sym) {
            None => self.fail("internal: bad symbol index"@),
            Some(name) => {
                let (h, s) = self.intern(name);
                (h, Ok(s))
            },
        }
    }
}

/// What a closure's parameter looks like, as plain words.
pub enum Shape {
    NoUnit,
    NoParam,
    Ident,
    Formals { fields: Vec<(u32, Option<u32>)>, ellipsis: bool, bind: bool },
}

impl Heap {
    pub fn fail<T>(&mut self, msg: Text) -> (r: Result<T, Fault>)
        ensures
            old(self)@.fail::<T>(msg@) == (final(self)@, r),
    {
        let text = self.new_text(msg);
        Err(Fault::Throw { kind: ErrKind::Eval, text, tail: None })
    }

    pub fn fail_str<T>(&mut self, msg: &str) -> (r: Result<T, Fault>)
        ensures
            old(self)@.fail::<T>(msg@) == (final(self)@, r),
    {
        self.fail(text_of(msg))
    }

    /// Fails with a message made of a lead and a value's type.
    pub fn fail_type<T>(&mut self, lead: &str, v: Value) -> (r: Result<T, Fault>)
        ensures
            old(self)@.fail::<T>(lead@ + type_text(v)) == (final(self)@, r),
    {
        let mut msg = text_of(lead);
        append_str(&mut msg, kind_name(v));
        self.fail(msg)
    }

    /// Fails with a message made of three pieces.
    pub fn fail_with<T>(&mut self, lead: &str, mid: &Text, end: &str) -> (r: Result<T, Fault>)
        ensures
            old(self)@.fail::<T>(lead@ + mid@ + end@) == (final(self)@, r),
    {
        let mut msg = text_of(lead);
        append_all(&mut msg, mid);
        append_str(&mut msg, end);
        self.fail(msg)
    }

    pub fn missing<T>(&mut self, what: Text) -> (r: Result<T, Fault>)
        ensures
            old(self)@.missing::<T>(what@) == (final(self)@, r),
    {
        let text = self.new_text(what);
        Err(Fault::Unimplemented(text))
    }

    pub fn shown(&self, v: Value) -> (t: Text)
        ensures
            t@ == self@.shown(v),
    {
        match v {
            Value::Int(n) => {
                let mut t: Text = Vec::new();
                append_int(&mut t, n as i128);
                t
            },
            Value::Float(_) => Vec::new(),
            Value::Bool(b) => text_of(
                if b {
                    "true"
                } else {
                    "false"
                },
            ),
            Value::Null => text_of("null"),
            Value::Str(s) => {
                let mut t = text_of("\"");
                append_all(&mut t, &self.text(s));
                append_str(&mut t, "\"");
                t
            },
            Value::Path(p) => self.text(p),
            Value::List(_) => text_of("[ ... ]"),
            Value::Attrs(_) => text_of("{ ... }"),
            Value::Closure { .. } => text_of("<LAMBDA>"),
            Value::Builtin { .. } => text_of("<LAMBDA>"),
        }
    }

    pub fn fail_shown<T>(&mut self, lead: &str, v: Value) -> (r: Result<T, Fault>)
        ensures
            old(self)@.fail_shown::<T>(lead@, v) == (final(self)@, r),
    {
        let mut msg = text_of(lead);
        append_str(&mut msg, kind_name(v));
        append_str(&mut msg, ": ");
        let shown = self.shown(v);
        append_all(&mut msg, &shown);
        let text = self.new_text(msg);
        let tail = match v {
            Value::Float(x) => Some(x),
            _ => None,
        };
        Err(Fault::Throw { kind: ErrKind::Eval, text, tail })
    }

    pub fn peek(&self, s: Slot) -> (r: Option<Value>)
        ensures
            r == self@.peek(s),
    {
        match self.slot(s) {
            SlotState::Value(v) => Some(v),
            _ => None,
        }
    }

    pub fn forced(&mut self, s: Slot) -> (r: Result<Value, Fault>)
        ensures
            old(self)@.forced(s) == (final(self)@, r),
    {
        match self.peek(s) {
            Some(v) => Ok(v),
            None => self.fail_str("internal: value read before it was forced"),
        }
    }

    pub fn value_slot(&mut self, v: Value) -> (s: Slot)
        ensures
            old(self)@.value_slot(v) == (final(self)@, s),
    {
        self.new_slot(SlotState::Value(v))
    }

    pub fn str_value(&mut self, t: Text) -> (v: Value)
        ensures
            old(self)@.str_value(t@) == (final(self)@, v),
    {
        Value::Str(self.new_text(t))
    }

    pub fn path_value(&mut self, t: Text) -> (v: Value)
        ensures
            old(self)@.path_value(t@) == (final(self)@, v),
    {
        Value::Path(self.new_text(t))
    }

    pub fn list_value(&mut self, l: Vec<usize>) -> (v: Value)
        ensures
            old(self)@.list_value(l@) == (final(self)@, v),
    {
        Value::List(self.new_list(l))
    }

    pub fn attrs_value(&mut self, s: Vec<(Sym, Slot)>) -> (v: Value)
        ensures
            old(self)@.attrs_value(s@) == (final(self)@, v),
    {
        Value::Attrs(self.new_set(s))
    }

    pub fn str_slot(&mut self, t: Text) -> (s: Slot)
        ensures
            old(self)@.str_slot(t@) == (final(self)@, s),
    {
        let v = self.str_value(t);
        self.value_slot(v)
    }

    pub fn pending_slot(&mut self, f: Value, args: Vec<usize>) -> (s: Slot)
        ensures
            old(self)@.pending_slot(f, args@) == (final(self)@, s),
    {
        let args = self.new_list(args);
        self.new_slot(SlotState::PendingApply { f, args })
    }

    pub fn want_list(&mut self, v: Value) -> (r: Result<usize, Fault>)
        ensures
            old(self)@.want_list(v) == (final(self)@, r),
    {
        match v {
            Value::List(l) => Ok(l),
            _ => self.fail_type("expected a list but found ", v),
        }
    }

    pub fn want_attrs(&mut self, v: Value) -> (r: Result<usize, Fault>)
        ensures
            old(self)@.want_attrs(v) == (final(self)@, r),
    {
        match v {
            Value::Attrs(s) => Ok(s),
            _ => self.fail_type("expected a set but found ", v),
        }
    }

    pub fn want_int(&mut self, v: Value) -> (r: Result<i64, Fault>)
        ensures
            old(self)@.want_int(v) == (final(self)@, r),
    {
        match v {
            Value::Int(n) => Ok(n),
            _ => self.fail_type("expected an integer but found ", v),
        }
    }

    pub fn want_str(&mut self, v: Value) -> (r: Result<usize, Fault>)
        ensures
            old(self)@.want_str(v) == (final(self)@, r),
    {
        match v {
            Value::Str(s) => Ok(s),
            _ => self.fail_type("expected a string but found ", v),
        }
    }

    pub fn want_bool(&mut self, v: Value) -> (r: Result<bool, Fault>)
        ensures
            old(self)@.want_bool(v) == (final(self)@, r),
    {
        match v {
            Value::Bool(b) => Ok(b),
            _ => self.fail_type("expected a Boolean but found ", v),
        }
    }

    pub fn coerce_interpolated(&mut self, v: Value) -> (r: Result<usize, Fault>)
        ensures
            old(self)@.coerce_interpolated(v) == (final(self)@, r),
    {
        match v {
            Value::Str(s) => Ok(s),
            Value::Path(p) => Ok(p),
            _ => self.fail_with("cannot coerce ", &text_of(kind_name(v)), " to a string"),
        }
    }

    pub fn arg(&mut self, args: usize, i: usize) -> (r: Result<Slot, Fault>)
        ensures
            old(self)@.arg(args, i) == (final(self)@, r),
    {
        match self.list_get(args, i) {
            Some(s) => Ok(s),
            None => self.fail_str("internal: missing builtin argument"),
        }
    }

    pub fn argv(&mut self, args: usize, i: usize) -> (r: Result<Value, Fault>)
        ensures
            old(self)@.argv(args, i) == (final(self)@, r),
    {
        match self.arg(args, i) {
            Err(e) => Err(e),
            Ok(s) => self.forced(s),
        }
    }

    pub fn nth(&mut self, items: usize, i: usize) -> (r: Result<Slot, Fault>)
        ensures
            old(self)@.nth(items, i) == (final(self)@, r),
    {
        match self.list_get(items, i) {
            Some(s) => Ok(s),
            None => self.fail_str("internal: list position lost"),
        }
    }

    pub fn arg_list(&mut self, args: usize, i: usize) -> (r: Result<usize, Fault>)
        ensures
            old(self)@.arg_list(args, i) == (final(self)@, r),
    {
        match self.argv(args, i) {
            Err(e) => Err(e),
            Ok(v) => self.want_list(v),
        }
    }

    pub fn arg_attrs(&mut self, args: usize, i: usize) -> (r: Result<usize, Fault>)
        ensures
            old(self)@.arg_attrs(args, i) == (final(self)@, r),
    {
        match self.argv(args, i) {
            Err(e) => Err(e),
            Ok(v) => self.want_attrs(v),
        }
    }

    pub fn arg_str(&mut self, args: usize, i: usize) -> (r: Result<usize, Fault>)
        ensures
            old(self)@.arg_str(args, i) == (final(self)@, r),
    {
        match self.argv(args, i) {
            Err(e) => Err(e),
            Ok(v) => self.want_str(v),
        }
    }

    pub fn arg_int(&mut self, args: usize, i: usize) -> (r: Result<i64, Fault>)
        ensures
            old(self)@.arg_int(args, i) == (final(self)@, r),
    {
        match self.argv(args, i) {
            Err(e) => Err(e),
            Ok(v) => self.want_int(v),
        }
    }

    pub fn attr(&mut self, set: usize, name: &str) -> (r: Option<Slot>)
        ensures
            old(self)@.attr(set, name@) == (final(self)@, r),
    {
        let sym = self.intern(&text_of(name));
        self.set_get(set, sym)
    }

    pub fn op_at(&self, module: usize, unit: u32, ip: usize) -> (r: Option<Op>)
        ensures
            r == self@.op_at(module, unit, ip),
    {
        if module < self.modules.len() && (unit as usize) < self.modules[module].units.len() && ip
            < self.modules[module].units[unit as usize].ops.len() {
            Some(self.modules[module].units[unit as usize].ops[ip])
        } else {
            None
        }
    }

    pub fn local_name(&self, module: usize, sym: u32) -> (r: Option<Text>)
        ensures
            match r {
                Some(t) => self@.local_name(module, sym) == Some(t@),
                None => self@.local_name(module, sym) is None,
            },
    {
        if module < self.modules.len() && (sym as usize) < self.modules[module].symbols.len() {
            Some(copy_of(&self.modules[module].symbols[sym as usize]))
        } else {
            None
        }
    }

    pub fn field_name(&self, module: usize, sym: u32) -> (t: Text)
        ensures
            t@ == self@.field_name(module, sym),
    {
        match self.local_name(module, sym) {
            Some(t) => t,
            None => Vec::new(),
        }
    }

    /// The shape of a unit's parameter.
    pub fn shape_at(&self, module: usize, unit: u32) -> (r: Shape)
        ensures
            match r {
                Shape::NoUnit => self@.param_at(module, unit) is None,
                Shape::NoParam => self@.param_at(module, unit) == Some(None::<ParamView>),
                Shape::Ident => self@.param_at(module, unit) matches Some(Some(ParamView::Ident(_))),
                Shape::Formals { fields, ellipsis, bind } => {
                    &&& self@.param_at(module, unit) matches Some(
                        Some(ParamView::Formals { fields: f, ellipsis: e, bind: b }),
                    )
                    &&& f == fields@
                    &&& e == ellipsis
                    &&& b is Some == bind
                },
            },
    {
        if module < self.modules.len() && (unit as usize) < self.modules[module].units.len() {
            match &self.modules[module].units[unit as usize].param {
                None => Shape::NoParam,
                Some(Param::Ident(_)) => Shape::Ident,
                Some(Param::Formals { fields, ellipsis, bind }) => Shape::Formals {
                    fields: copy_of(fields),
                    ellipsis: *ellipsis,
                    bind: bind.is_some(),
                },
            }
        } else {
            Shape::NoUnit
        }
    }

    pub fn msym(&mut self, module: usize, sym: u32) -> (r: Result<Sym, Fault>)
        ensures
            old(self)@.msym(module, sym) == (final(self)@, r),
    {
        match self.local_name(module, sym) {
            None => self.fail_str("internal: bad symbol index"),
            Some(name) => Ok(self.intern(&name)),
        }
    }
}

} // verus!
