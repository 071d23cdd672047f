//! Everything the machine holds: lazily evaluated slots, lists, attribute
//! sets, texts, environments and compiled modules, each in an arena of its
//! own and named by its index. Values are therefore plain words, cheap to
//! copy and to compare, and nesting of any depth costs arena entries, never
//! host stack.
use crate::lang::ir::{Module, ModuleView};
use crate::text::{append_all, copy_of, text_of, Text};
use vstd::prelude::*;

verus! {

/// Interned symbol id within one heap.
pub type Sym = u32;

/// A slot: a lazily evaluated cell, by its index.
pub type Slot = usize;

/// A runtime value. Aggregates are arena indices; a float is its bit
/// pattern.
#[derive(Debug, Clone, Copy, PartialEq, Eq, Structural)]
pub enum Value {
    Int(i64),
    Float(u64),
    Bool(bool),
    Null,
    /// A text.
    Str(usize),
    /// A text holding a path.
    Path(usize),
    /// A list of slots.
    List(usize),
    /// A set: slots sorted by symbol.
    Attrs(usize),
    Closure { module: usize, unit: u32, env: usize },
    /// A builtin, possibly partially applied; the arguments are a list.
    Builtin { idx: u16, args: usize },
}

/// Which class a failure belongs to.
#[derive(Debug, Clone, Copy, PartialEq, Eq, Structural)]
pub enum ErrKind {
    /// An ordinary evaluation error (type errors, missing attributes, ...).
    Eval,
    /// `builtins.throw`.
    Thrown,
    /// A failed `assert`.
    Assertion,
}

/// A failure on its way up the frames.
#[derive(Debug, Clone, Copy, PartialEq, Eq, Structural)]
pub enum Fault {
    /// An error the language can report: its class, its message, and a float
    /// whose text completes the message.
    Throw { kind: ErrKind, text: usize, tail: Option<u64> },
    /// Something without an implementation, named by the text.
    Unimplemented(usize),
}

/// What a slot holds.
#[derive(Debug, Clone, Copy, PartialEq, Eq, Structural)]
pub enum SlotState {
    Value(Value),
    Thunk { module: usize, unit: u32, env: usize },
    /// Under evaluation: hitting this is infinite recursion.
    Blackhole,
    /// A forced thunk whose evaluation threw. Re-forcing rethrows the same
    /// error.
    Failed(Fault),
    /// `f a b` not yet performed; the arguments are a list.
    PendingApply { f: Value, args: usize },
    /// A feature without an implementation; forcing reports it.
    Unimplemented(usize),
}

/// One environment: a chain of frames, innermost first.
#[derive(Debug, Clone, Copy, PartialEq, Eq, Structural)]
pub enum EnvNode {
    Root,
    /// A frame of slots, which are a list.
    Frame { up: usize, slots: usize },
    /// A `with` scope and its lazily forced subject.
    With { up: usize, subject: Slot },
}

/// One entry of a work list: an operand, a comparison to make, something to
/// print, or a key already seen.
#[derive(Debug, Clone, Copy, PartialEq, Eq, Structural)]
pub enum Item {
    /// A strict value.
    Val(Value),
    /// A slot, not necessarily forced.
    Lazy(Slot),
    /// A soft selection that found nothing.
    Miss,
    /// Two slots to compare.
    Pair(Slot, Slot),
    /// A decided inequality, queued behind the comparisons before it.
    Fail,
    /// A text to emit as it is.
    Lit(usize),
    /// A float to emit.
    Digits(u64),
    /// A slot to render at this nesting depth.
    Deep(Slot, usize),
    /// A position in two lists being compared.
    Pos { a: usize, b: usize, i: usize },
    /// The replacement at this index.
    Use(usize),
}

// -- the model ---------------------------------------------------------------

/// The contents of nested vectors.
pub open spec fn contents<T>(v: Seq<Vec<T>>) -> Seq<Seq<T>> {
    Seq::new(v.len(), |i: int| v[i]@)
}

/// The model of [`Heap`].
#[verifier::ext_equal]
pub struct HeapView {
    pub slots: Seq<SlotState>,
    pub lists: Seq<Seq<usize>>,
    pub sets: Seq<Seq<(Sym, Slot)>>,
    pub texts: Seq<Seq<char>>,
    pub works: Seq<Seq<Item>>,
    pub envs: Seq<EnvNode>,
    pub symbols: Seq<Seq<char>>,
    pub modules: Seq<ModuleView>,
    /// Imported files: the text holding the path, and the module.
    pub imports: Seq<(usize, usize)>,
}

pub struct Heap {
    pub slots: Vec<SlotState>,
    pub lists: Vec<Vec<usize>>,
    pub sets: Vec<Vec<(Sym, Slot)>>,
    pub texts: Vec<Text>,
    pub works: Vec<Vec<Item>>,
    pub envs: Vec<EnvNode>,
    pub symbols: Vec<Text>,
    pub modules: Vec<Module>,
    pub imports: Vec<(usize, usize)>,
}

impl View for Heap {
    type V = HeapView;

    open spec fn view(&self) -> HeapView {
        HeapView {
            slots: self.slots@,
            lists: contents(self.lists@),
            sets: contents(self.sets@),
            texts: contents(self.texts@),
            works: contents(self.works@),
            envs: self.envs@,
            symbols: contents(self.symbols@),
            modules: Seq::new(self.modules@.len(), |i: int| self.modules@[i]@),
            imports: self.imports@,
        }
    }
}

/// Where a symbol's entry goes in a sorted set, looking from position `i`.
pub open spec fn place(set: Seq<(Sym, Slot)>, k: Sym, i: int) -> int
    decreases set.len() - i,
{
    if i >= set.len() || set[i].0 >= k {
        i
    } else {
        place(set, k, i + 1)
    }
}

/// The slot bound to a symbol.
pub open spec fn lookup(set: Seq<(Sym, Slot)>, k: Sym) -> Option<Slot> {
    let i = place(set, k, 0);
    if i < set.len() && set[i].0 == k {
        Some(set[i].1)
    } else {
        None
    }
}

/// The set with a symbol bound to a slot, replacing any earlier binding.
pub open spec fn bind(set: Seq<(Sym, Slot)>, k: Sym, s: Slot) -> Seq<(Sym, Slot)> {
    let i = place(set, k, 0);
    if i < set.len() && set[i].0 == k {
        set.update(i, (k, s))
    } else {
        set.insert(i, (k, s))
    }
}

/// The set without a symbol.
pub open spec fn unbind(set: Seq<(Sym, Slot)>, k: Sym) -> Seq<(Sym, Slot)> {
    let i = place(set, k, 0);
    if i < set.len() && set[i].0 == k {
        set.remove(i)
    } else {
        set
    }
}

/// The position of the first text equal to `t`, from `i` on.
pub open spec fn position(texts: Seq<Seq<char>>, t: Seq<char>, i: int) -> int
    decreases texts.len() - i,
{
    if i >= texts.len() || texts[i] == t {
        i
    } else {
        position(texts, t, i + 1)
    }
}

impl HeapView {
    pub open spec fn text(self, id: usize) -> Seq<char> {
        if id < self.texts.len() {
            self.texts[id as int]
        } else {
            Seq::empty()
        }
    }

    pub open spec fn new_text(self, t: Seq<char>) -> (HeapView, usize) {
        (HeapView { texts: self.texts.push(t), ..self }, self.texts.len() as usize)
    }

    pub open spec fn text_put(self, id: usize, t: Seq<char>) -> HeapView {
        if id < self.texts.len() {
            HeapView { texts: self.texts.update(id as int, t), ..self }
        } else {
            self
        }
    }

    pub open spec fn list(self, id: usize) -> Seq<usize> {
        if id < self.lists.len() {
            self.lists[id as int]
        } else {
            Seq::empty()
        }
    }

    pub open spec fn new_list(self, l: Seq<usize>) -> (HeapView, usize) {
        (HeapView { lists: self.lists.push(l), ..self }, self.lists.len() as usize)
    }

    pub open spec fn list_put(self, id: usize, l: Seq<usize>) -> HeapView {
        if id < self.lists.len() {
            HeapView { lists: self.lists.update(id as int, l), ..self }
        } else {
            self
        }
    }

    pub open spec fn set(self, id: usize) -> Seq<(Sym, Slot)> {
        if id < self.sets.len() {
            self.sets[id as int]
        } else {
            Seq::empty()
        }
    }

    pub open spec fn new_set(self, s: Seq<(Sym, Slot)>) -> (HeapView, usize) {
        (HeapView { sets: self.sets.push(s), ..self }, self.sets.len() as usize)
    }

    pub open spec fn set_put(self, id: usize, s: Seq<(Sym, Slot)>) -> HeapView {
        if id < self.sets.len() {
            HeapView { sets: self.sets.update(id as int, s), ..self }
        } else {
            self
        }
    }

    pub open spec fn work(self, id: usize) -> Seq<Item> {
        if id < self.works.len() {
            self.works[id as int]
        } else {
            Seq::empty()
        }
    }

    pub open spec fn new_work(self, w: Seq<Item>) -> (HeapView, usize) {
        (HeapView { works: self.works.push(w), ..self }, self.works.len() as usize)
    }

    pub open spec fn work_put(self, id: usize, w: Seq<Item>) -> HeapView {
        if id < self.works.len() {
            HeapView { works: self.works.update(id as int, w), ..self }
        } else {
            self
        }
    }

    /// A slot that does not exist reads as one under evaluation.
    pub open spec fn slot(self, id: Slot) -> SlotState {
        if id < self.slots.len() {
            self.slots[id as int]
        } else {
            SlotState::Blackhole
        }
    }

    pub open spec fn new_slot(self, s: SlotState) -> (HeapView, Slot) {
        (HeapView { slots: self.slots.push(s), ..self }, self.slots.len() as usize)
    }

    pub open spec fn slot_put(self, id: Slot, s: SlotState) -> HeapView {
        if id < self.slots.len() {
            HeapView { slots: self.slots.update(id as int, s), ..self }
        } else {
            self
        }
    }

    pub open spec fn env(self, id: usize) -> EnvNode {
        if id < self.envs.len() {
            self.envs[id as int]
        } else {
            EnvNode::Root
        }
    }

    pub open spec fn new_env(self, e: EnvNode) -> (HeapView, usize) {
        (HeapView { envs: self.envs.push(e), ..self }, self.envs.len() as usize)
    }

    /// The symbol for a name, made on first use. Symbols are numbered in the
    /// order they were first seen.
    pub open spec fn intern(self, name: Seq<char>) -> (HeapView, Sym) {
        let i = position(self.symbols, name, 0);
        if i < self.symbols.len() {
            (self, i as u32)
        } else {
            (HeapView { symbols: self.symbols.push(name), ..self }, i as u32)
        }
    }

    pub open spec fn sym_name(self, s: Sym) -> Seq<char> {
        if s < self.symbols.len() {
            self.symbols[s as int]
        } else {
            "<sym?>"@
        }
    }
}

// -- the arenas --------------------------------------------------------------

/// Whether two texts hold the same characters.
pub fn same_text(a: &Text, b: &Text) -> (r: bool)
    ensures
        r == (a@ == b@),
{
    if a.len() != b.len() {
        return false;
    }
    let mut i: usize = 0;
    while i < a.len()
        invariant
            i <= a.len(),
            a.len() == b.len(),
            forall|j: int| 0 <= j < i ==> a@[j] == b@[j],
        decreases a.len() - i,
    {
        if a[i] != b[i] {
            return false;
        }
        i += 1;
    }
    assert(a@ == b@);
    true
}

/// The position of a symbol's entry in a sorted set.
pub fn find_place(set: &Vec<(Sym, Slot)>, k: Sym) -> (r: usize)
    ensures
        r == place(set@, k, 0),
        r <= set.len(),
{
    let mut i: usize = 0;
    while i < set.len() && set[i].0 < k
        invariant
            i <= set.len(),
            place(set@, k, i as int) == place(set@, k, 0),
        decreases set.len() - i,
    {
        i += 1;
    }
    i
}

/// The slot bound to a symbol.
pub fn set_lookup(set: &Vec<(Sym, Slot)>, k: Sym) -> (r: Option<Slot>)
    ensures
        r == lookup(set@, k),
{
    let i = find_place(set, k);
    if i < set.len() && set[i].0 == k {
        Some(set[i].1)
    } else {
        None
    }
}

/// Binds a symbol, replacing any earlier binding.
pub fn set_bind(set: &mut Vec<(Sym, Slot)>, k: Sym, s: Slot)
    ensures
        final(set)@ == bind(old(set)@, k, s),
{
    let i = find_place(set, k);
    if i < set.len() && set[i].0 == k {
        set.set(i, (k, s));
    } else {
        set.insert(i, (k, s));
    }
}

/// Removes a symbol's binding, if there is one.
pub fn set_unbind(set: &mut Vec<(Sym, Slot)>, k: Sym)
    ensures
        final(set)@ == unbind(old(set)@, k),
{
    let i = find_place(set, k);
    if i < set.len() && set[i].0 == k {
        set.remove(i);
    }
}

/// The position of a text among others, or their number.
pub fn find_text(texts: &Vec<Text>, t: &Text) -> (r: usize)
    ensures
        r == position(contents(texts@), t@, 0),
        r <= texts.len(),
{
    let mut i: usize = 0;
    while i < texts.len() && !same_text(&texts[i], t)
        invariant
            i <= texts.len(),
            position(contents(texts@), t@, i as int) == position(contents(texts@), t@, 0),
        decreases texts.len() - i,
    {
        i += 1;
    }
    i
}

impl Heap {
    pub fn new() -> (h: Heap)
        ensures
            h@ == (HeapView {
                slots: Seq::empty(),
                lists: Seq::empty(),
                sets: Seq::empty(),
                texts: Seq::empty(),
                works: Seq::empty(),
                envs: Seq::empty(),
                symbols: Seq::empty(),
                modules: Seq::empty(),
                imports: Seq::empty(),
            }),
    {
        Heap {
            slots: Vec::new(),
            lists: Vec::new(),
            sets: Vec::new(),
            texts: Vec::new(),
            works: Vec::new(),
            envs: Vec::new(),
            symbols: Vec::new(),
            modules: Vec::new(),
            imports: Vec::new(),
        }
    }

    /// The characters of a text.
    pub fn text(&self, id: usize) -> (t: Text)
        ensures
            t@ == self@.text(id),
    {
        if id < self.texts.len() {
            copy_of(&self.texts[id])
        } else {
            Vec::new()
        }
    }

    pub fn new_text(&mut self, t: Text) -> (id: usize)
        ensures
            old(self)@.new_text(t@) == (final(self)@, id),
    {
        let id = self.texts.len();
        self.texts.push(t);
        assert(self@ =~= old(self)@.new_text(t@).0);
        id
    }

    /// Appends characters to a text.
    pub fn text_append(&mut self, id: usize, more: &Text)
        ensures
            final(self)@ == old(self)@.text_put(id, old(self)@.text(id) + more@),
    {
        if id < self.texts.len() {
            append_all(&mut self.texts[id], more);
        }
        assert(self@ =~= old(self)@.text_put(id, old(self)@.text(id) + more@));
    }

    pub fn list(&self, id: usize) -> (l: Vec<usize>)
        ensures
            l@ == self@.list(id),
    {
        if id < self.lists.len() {
            copy_of(&self.lists[id])
        } else {
            Vec::new()
        }
    }

    pub fn list_len(&self, id: usize) -> (n: usize)
        ensures
            n == self@.list(id).len(),
    {
        if id < self.lists.len() {
            self.lists[id].len()
        } else {
            0
        }
    }

    pub fn list_get(&self, id: usize, i: usize) -> (r: Option<usize>)
        ensures
            r == (if i < self@.list(id).len() {
                Some(self@.list(id)[i as int])
            } else {
                None
            }),
            r is Some ==> i < usize::MAX,
    {
        if id < self.lists.len() && i < self.lists[id].len() {
            Some(self.lists[id][i])
        } else {
            None
        }
    }

    pub fn new_list(&mut self, l: Vec<usize>) -> (id: usize)
        ensures
            old(self)@.new_list(l@) == (final(self)@, id),
    {
        let id = self.lists.len();
        self.lists.push(l);
        assert(self@ =~= old(self)@.new_list(l@).0);
        id
    }

    pub fn list_push(&mut self, id: usize, x: usize)
        ensures
            final(self)@ == old(self)@.list_put(id, old(self)@.list(id).push(x)),
    {
        if id < self.lists.len() {
            self.lists[id].push(x);
        }
        assert(self@ =~= old(self)@.list_put(id, old(self)@.list(id).push(x)));
    }

    pub fn list_put(&mut self, id: usize, l: Vec<usize>)
        ensures
            final(self)@ == old(self)@.list_put(id, l@),
    {
        if id < self.lists.len() {
            self.lists.set(id, l);
        }
        assert(self@ =~= old(self)@.list_put(id, l@));
    }

    pub fn set(&self, id: usize) -> (s: Vec<(Sym, Slot)>)
        ensures
            s@ == self@.set(id),
    {
        if id < self.sets.len() {
            copy_of(&self.sets[id])
        } else {
            Vec::new()
        }
    }

    pub fn set_get(&self, id: usize, k: Sym) -> (r: Option<Slot>)
        ensures
            r == lookup(self@.set(id), k),
    {
        if id < self.sets.len() {
            set_lookup(&self.sets[id], k)
        } else {
            None
        }
    }

    pub fn new_set(&mut self, s: Vec<(Sym, Slot)>) -> (id: usize)
        ensures
            old(self)@.new_set(s@) == (final(self)@, id),
    {
        let id = self.sets.len();
        self.sets.push(s);
        assert(self@ =~= old(self)@.new_set(s@).0);
        id
    }

    pub fn set_put(&mut self, id: usize, s: Vec<(Sym, Slot)>)
        ensures
            final(self)@ == old(self)@.set_put(id, s@),
    {
        if id < self.sets.len() {
            self.sets.set(id, s);
        }
        assert(self@ =~= old(self)@.set_put(id, s@));
    }

    /// Binds a symbol in a set under construction.
    pub fn set_insert(&mut self, id: usize, k: Sym, s: Slot)
        ensures
            final(self)@ == old(self)@.set_put(id, bind(old(self)@.set(id), k, s)),
    {
        if id < self.sets.len() {
            set_bind(&mut self.sets[id], k, s);
        }
        assert(self@ =~= old(self)@.set_put(id, bind(old(self)@.set(id), k, s)));
    }

    pub fn work_len(&self, id: usize) -> (n: usize)
        ensures
            n == self@.work(id).len(),
    {
        if id < self.works.len() {
            self.works[id].len()
        } else {
            0
        }
    }

    pub fn work(&self, id: usize) -> (w: Vec<Item>)
        ensures
            w@ == self@.work(id),
    {
        if id < self.works.len() {
            copy_of(&self.works[id])
        } else {
            Vec::new()
        }
    }

    pub fn work_get(&self, id: usize, i: usize) -> (r: Option<Item>)
        ensures
            r == (if i < self@.work(id).len() {
                Some(self@.work(id)[i as int])
            } else {
                None
            }),
            r is Some ==> i < usize::MAX,
    {
        if id < self.works.len() && i < self.works[id].len() {
            Some(self.works[id][i])
        } else {
            None
        }
    }

    pub fn new_work(&mut self, w: Vec<Item>) -> (id: usize)
        ensures
            old(self)@.new_work(w@) == (final(self)@, id),
    {
        let id = self.works.len();
        self.works.push(w);
        assert(self@ =~= old(self)@.new_work(w@).0);
        id
    }

    pub fn work_push(&mut self, id: usize, x: Item)
        ensures
            final(self)@ == old(self)@.work_put(id, old(self)@.work(id).push(x)),
    {
        if id < self.works.len() {
            self.works[id].push(x);
        }
        assert(self@ =~= old(self)@.work_put(id, old(self)@.work(id).push(x)));
    }

    pub fn work_append(&mut self, id: usize, more: &Vec<Item>)
        ensures
            final(self)@ == old(self)@.work_put(id, old(self)@.work(id) + more@),
    {
        if id < self.works.len() {
            append_all(&mut self.works[id], more);
        }
        assert(self@ =~= old(self)@.work_put(id, old(self)@.work(id) + more@));
    }

    pub fn work_put(&mut self, id: usize, w: Vec<Item>)
        ensures
            final(self)@ == old(self)@.work_put(id, w@),
    {
        if id < self.works.len() {
            self.works.set(id, w);
        }
        assert(self@ =~= old(self)@.work_put(id, w@));
    }

    pub fn work_set(&mut self, id: usize, i: usize, x: Item)
        ensures
            final(self)@ == (if i < old(self)@.work(id).len() {
                old(self)@.work_put(id, old(self)@.work(id).update(i as int, x))
            } else {
                old(self)@
            }),
    {
        if id < self.works.len() && i < self.works[id].len() {
            self.works[id].set(i, x);
            assert(self@ =~= old(self)@.work_put(id, old(self)@.work(id).update(i as int, x)));
        }
    }

    /// Removes and hands back the last entry of a work list.
    pub fn work_pop(&mut self, id: usize) -> (r: Option<Item>)
        ensures
            (final(self)@, r) == (if old(self)@.work(id).len() == 0 {
                (old(self)@, None)
            } else {
                (
                    old(self)@.work_put(id, old(self)@.work(id).drop_last()),
                    Some(old(self)@.work(id).last()),
                )
            }),
    {
        if id < self.works.len() && self.works[id].len() > 0 {
            let r = self.works[id].pop();
            assert(self@ =~= old(self)@.work_put(id, old(self)@.work(id).drop_last()));
            r
        } else {
            None
        }
    }

    pub fn slot(&self, id: Slot) -> (s: SlotState)
        ensures
            s == self@.slot(id),
    {
        if id < self.slots.len() {
            self.slots[id]
        } else {
            SlotState::Blackhole
        }
    }

    pub fn new_slot(&mut self, s: SlotState) -> (id: Slot)
        ensures
            old(self)@.new_slot(s) == (final(self)@, id),
    {
        let id = self.slots.len();
        self.slots.push(s);
        assert(self@ =~= old(self)@.new_slot(s).0);
        id
    }

    pub fn slot_put(&mut self, id: Slot, s: SlotState)
        ensures
            final(self)@ == old(self)@.slot_put(id, s),
    {
        if id < self.slots.len() {
            self.slots.set(id, s);
        }
        assert(self@ =~= old(self)@.slot_put(id, s));
    }

    pub fn env(&self, id: usize) -> (e: EnvNode)
        ensures
            e == self@.env(id),
    {
        if id < self.envs.len() {
            self.envs[id]
        } else {
            EnvNode::Root
        }
    }

    pub fn new_env(&mut self, e: EnvNode) -> (id: usize)
        ensures
            old(self)@.new_env(e) == (final(self)@, id),
    {
        let id = self.envs.len();
        self.envs.push(e);
        assert(self@ =~= old(self)@.new_env(e).0);
        id
    }

    /// The symbol for a name, made on first use.
    pub fn intern(&mut self, name: &Text) -> (s: Sym)
        ensures
            old(self)@.intern(name@) == (final(self)@, s),
    {
        let i = find_text(&self.symbols, name);
        if i >= self.symbols.len() {
            self.symbols.push(copy_of(name));
            assert(self@ =~= old(self)@.intern(name@).0);
        }
        #[verifier::truncate]
        (i as u32)
    }

    /// The name of a symbol.
    pub fn sym_name(&self, s: Sym) -> (t: Text)
        ensures
            t@ == self@.sym_name(s),
    {
        if (s as usize) < self.symbols.len() {
            copy_of(&self.symbols[s as usize])
        } else {
            text_of("<sym?>")
        }
    }
}

} // verus!
