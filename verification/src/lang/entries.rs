//! Attribute names, and how the entries of set literals come together:
//! `a.b = 1; a.c = 2;` is one `a`, and so is `a = { b = 1; }; a = { c = 2; };`.
use crate::lang::heap::{contents, find_text, position};
use crate::lang::scopes::{
    bad_name, bad_source, no_support, parse_error, unsupported, yielded, Bind, CompileError,
    CompileErrorView, Compiler, CompilerView, SetView,
};
use crate::lang::syntax::{literal_parts, opt_view, string_parts, Class, Kind, Tree, TreeView};
use crate::text::{append_all, copy_of, Text};
use vstd::prelude::*;

verus! {

// -- names -------------------------------------------------------------------

/// The name a string literal spells, where it has no interpolation.
pub open spec fn static_str(t: TreeView, s: usize) -> Result<Seq<char>, CompileErrorView> {
    let parts = string_parts(t.text(s));
    if parts.len() == 0 {
        Ok(Seq::empty())
    } else if parts.len() == 1 && parts[0] is Some {
        Ok(parts[0]->0)
    } else {
        no_support("dynamic attr name"@)
    }
}

/// The attribute name when it is known before running: an identifier, a
/// literal string, or a literal string in `${ }`.
pub open spec fn static_attr(t: TreeView, attr: usize) -> Result<Seq<char>, CompileErrorView> {
    match t.kind(attr) {
        Kind::Ident => match t.name(attr) {
            Some(n) => Ok(n),
            None => parse_error("attr ident without token"@),
        },
        Kind::Str => static_str(t, attr),
        _ => match t.nth(attr, Class::Exprs, 0) {
            Some(e) => if t.kind(e) == Kind::Str {
                static_str(t, e)
            } else {
                no_support("dynamic attr name"@)
            },
            None => no_support("dynamic attr name"@),
        },
    }
}

/// The names of the attributes from position `i` on, appended to `out`.
pub open spec fn static_names(
    t: TreeView,
    attrs: Seq<usize>,
    i: int,
    out: Seq<Seq<char>>,
) -> Result<Seq<Seq<char>>, CompileErrorView>
    decreases attrs.len() - i,
{
    if i >= attrs.len() {
        Ok(out)
    } else {
        match static_attr(t, attrs[i]) {
            Err(e) => Err(e),
            Ok(n) => static_names(t, attrs, i + 1, out.push(n)),
        }
    }
}

/// A text or an error, as its model.
pub open spec fn text_result(r: Result<Text, CompileError>) -> Result<
    Seq<char>,
    CompileErrorView,
> {
    match r {
        Ok(t) => Ok(t@),
        Err(e) => Err(e@),
    }
}

/// Texts or an error, as their model.
pub open spec fn texts_result(r: Result<Vec<Text>, CompileError>) -> Result<
    Seq<Seq<char>>,
    CompileErrorView,
> {
    match r {
        Ok(v) => Ok(contents(v@)),
        Err(e) => Err(e@),
    }
}

fn static_str_of(t: &Tree, s: usize) -> (r: Result<Text, CompileError>)
    ensures
        text_result(r) == static_str(t@, s),
{
    let parts = literal_parts(&t.text(s));
    if parts.len() == 0 {
        return Ok(Vec::new());
    }
    if parts.len() == 1 {
        assert(opt_view(parts@[0]) == string_parts(t@.text(s))[0]);
        if let Some(text) = &parts[0] {
            return Ok(copy_of(text));
        }
    }
    Err(unsupported("dynamic attr name"))
}

pub fn static_attr_of(t: &Tree, attr: usize) -> (r: Result<Text, CompileError>)
    ensures
        text_result(r) == static_attr(t@, attr),
{
    match t.kind(attr) {
        Kind::Ident => match t.name(attr) {
            Some(n) => Ok(n),
            None => Err(bad_source("attr ident without token")),
        },
        Kind::Str => static_str_of(t, attr),
        _ => match t.nth(attr, Class::Exprs, 0) {
            Some(e) => if t.kind(e) == Kind::Str {
                static_str_of(t, e)
            } else {
                Err(unsupported("dynamic attr name"))
            },
            None => Err(unsupported("dynamic attr name")),
        },
    }
}

pub fn static_names_of(t: &Tree, attrs: &Vec<usize>, had: Vec<Text>) -> (r: Result<
    Vec<Text>,
    CompileError,
>)
    ensures
        texts_result(r) == static_names(t@, attrs@, 0, contents(had@)),
{
    let mut out = had;
    let mut i: usize = 0;
    while i < attrs.len()
        invariant
            i <= attrs.len(),
            static_names(t@, attrs@, i as int, contents(out@)) == static_names(
                t@,
                attrs@,
                0,
                contents(had@),
            ),
        decreases attrs.len() - i,
    {
        match static_attr_of(t, attrs[i]) {
            Err(e) => return Err(e),
            Ok(n) => {
                let ghost before = contents(out@);
                let ghost name = n@;
                out.push(n);
                assert(contents(out@) =~= before.push(name));
            },
        }
        i += 1;
    }
    Ok(out)
}

// -- assembling --------------------------------------------------------------

/// The most that set literals and expressions can be nested.
pub const NESTING: usize = usize::MAX;

pub open spec fn too_deep<T>() -> Result<T, CompileErrorView> {
    parse_error("internal: expression nested too deeply"@)
}

pub fn deep() -> (e: CompileError)
    ensures
        e@ == CompileErrorView::Parse("internal: expression nested too deeply"@),
{
    bad_source("internal: expression nested too deeply")
}

pub open spec fn duplicate<T>(name: Seq<char>) -> Result<T, CompileErrorView> {
    parse_error("attribute '"@ + name + "' already defined"@)
}

impl CompilerView {
    /// Binds a new name in a set.
    pub open spec fn bind_name(self, b: usize, name: Seq<char>, v: Bind) -> CompilerView {
        let s = self.set(b);
        self.set_put(b, SetView { names: s.names.push(name), binds: s.binds.push(v), ..s })
    }

    pub open spec fn bind_at(self, b: usize, at: int) -> Bind {
        let s = self.set(b);
        if 0 <= at < s.binds.len() {
            s.binds[at]
        } else {
            Bind::Leaf(usize::MAX)
        }
    }

    pub open spec fn rebind(self, b: usize, at: int, v: Bind) -> CompilerView {
        let s = self.set(b);
        self.set_put(
            b,
            SetView {
                binds: if 0 <= at < s.binds.len() {
                    s.binds.update(at, v)
                } else {
                    s.binds
                },
                ..s
            },
        )
    }

    /// Folds one set literal's entries into set `b`. The literal's own `rec`
    /// plays no part: only the first set to claim a name decides that.
    pub open spec fn merge_literal(self, t: TreeView, b: usize, lit: usize, fuel: nat) -> Result<
        CompilerView,
        CompileErrorView,
    >
        decreases fuel, 0int, 0int,
    {
        if fuel == 0 {
            too_deep()
        } else {
            let s = self.set(b);
            self.set_put(
                b,
                SetView {
                    inherits: s.inherits + t.children(lit, Class::Only(Kind::Inherit)),
                    ..s
                },
            ).merge_pairs(
                t,
                b,
                t.children(lit, Class::Only(Kind::AttrpathValue)),
                0,
                (fuel - 1) as nat,
            )
        }
    }

    /// The entries of a literal from position `i` on.
    pub open spec fn merge_pairs(
        self,
        t: TreeView,
        b: usize,
        pairs: Seq<usize>,
        i: int,
        fuel: nat,
    ) -> Result<CompilerView, CompileErrorView>
        decreases fuel, 3int, pairs.len() - i,
    {
        if i >= pairs.len() {
            Ok(self)
        } else {
            match self.merge_pair(t, b, pairs[i], fuel) {
                Err(e) => Err(e),
                Ok(c) => c.merge_pairs(t, b, pairs, i + 1, fuel),
            }
        }
    }

    pub open spec fn merge_pair(self, t: TreeView, b: usize, pair: usize, fuel: nat) -> Result<
        CompilerView,
        CompileErrorView,
    >
        decreases fuel, 2int, 0int,
    {
        match t.nth(pair, Class::Only(Kind::Attrpath), 0) {
            None => parse_error("attr without name"@),
            Some(path) => match t.nth(pair, Class::Exprs, 0) {
                None => parse_error("attr without value"@),
                Some(value) => {
                    let attrs = t.children(path, Class::Attrs);
                    match static_names(t, attrs, 0, Seq::empty()) {
                        Ok(names) => self.tree_insert(t, b, names, 0, value, fuel),
                        Err(CompileErrorView::Unimplemented(_)) => if attrs.len() == 1 {
                            let s = self.set(b);
                            Ok(
                                self.set_put(
                                    b,
                                    SetView { dynamic: s.dynamic.push((attrs[0], value)), ..s },
                                ),
                            )
                        } else {
                            no_support("dynamic attribute name inside a nested attrpath"@)
                        },
                        Err(e) => Err(e),
                    }
                },
            },
        }
    }

    /// Inserts the value of a static path whose components from `k` on
    /// remain: descends through existing sets, creates implicit sets for
    /// missing levels, and merges at the end when both sides are sets.
    pub open spec fn tree_insert(
        self,
        t: TreeView,
        b: usize,
        path: Seq<Seq<char>>,
        k: int,
        value: usize,
        fuel: nat,
    ) -> Result<CompilerView, CompileErrorView>
        decreases fuel, 1int, path.len() - k,
    {
        if k < 0 || k >= path.len() {
            parse_error("empty attrpath"@)
        } else {
            let head = path[k];
            let at = position(self.set(b).names, head, 0);
            let known = at < self.set(b).names.len();
            if k + 1 == path.len() {
                if !known {
                    Ok(self.bind_name(b, head, Bind::Leaf(value)))
                } else if t.kind(value) != Kind::AttrSet {
                    duplicate(head)
                } else {
                    match self.promote(t, b, at, head, fuel) {
                        Err(e) => Err(e),
                        Ok((c, node)) => c.merge_literal(t, node, value, fuel),
                    }
                }
            } else {
                let c = if known {
                    self
                } else {
                    let (c, node) = self.new_set(false);
                    c.bind_name(b, head, Bind::Node(node))
                };
                match c.promote(t, b, at, head, fuel) {
                    Err(e) => Err(e),
                    Ok((c, node)) => c.tree_insert(t, node, path, k + 1, value, fuel),
                }
            }
        }
    }

    /// The set under a name, made from the literal that was bound there
    /// first if need be. Anything but a set is a duplicate definition.
    pub open spec fn promote(
        self,
        t: TreeView,
        b: usize,
        at: int,
        name: Seq<char>,
        fuel: nat,
    ) -> Result<(CompilerView, usize), CompileErrorView>
        decreases fuel, 0int, 1int,
    {
        match self.bind_at(b, at) {
            Bind::Node(node) => Ok((self, node)),
            Bind::Leaf(e) => if t.kind(e) == Kind::AttrSet {
                let (c, node) = self.new_set(has_rec(t, e));
                match c.merge_literal(t, node, e, fuel) {
                    Err(e) => Err(e),
                    Ok(c) => Ok((c.rebind(b, at, Bind::Node(node)), node)),
                }
            } else {
                duplicate(name)
            },
        }
    }

    /// The set of a literal's entries. `let`, `let { }` and `rec { }` all
    /// assemble the same shape.
    pub open spec fn build_entries(self, t: TreeView, lit: usize, rec: bool, fuel: nat) -> Result<
        (CompilerView, usize),
        CompileErrorView,
    > {
        let (c, node) = self.new_set(rec);
        match c.merge_literal(t, node, lit, fuel) {
            Err(e) => Err(e),
            Ok(c) => Ok((c, node)),
        }
    }
}

/// Whether a set literal says `rec`.
pub open spec fn has_rec(t: TreeView, lit: usize) -> bool {
    t.nth(lit, Class::Only(Kind::RecToken), 0) is Some
}

/// The outcome of a step without a result, as its model.
pub open spec fn merged(r: Result<(), CompileError>, c: CompilerView) -> Result<
    CompilerView,
    CompileErrorView,
> {
    match r {
        Ok(_) => Ok(c),
        Err(e) => Err(e@),
    }
}

impl Compiler {
    fn bind_name(&mut self, b: usize, name: &Text, v: Bind)
        ensures
            final(self)@ == old(self)@.bind_name(b, name@, v),
    {
        if b < self.sets.len() {
            self.sets[b].names.push(copy_of(name));
            self.sets[b].binds.push(v);
            proof {
                let s = old(self)@.set(b);
                assert(self.sets@[b as int]@ =~= (SetView {
                    names: s.names.push(name@),
                    binds: s.binds.push(v),
                    ..s
                }));
                assert(self@.sets =~= old(self)@.bind_name(b, name@, v).sets);
            }
        }
    }

    fn bind_at(&self, b: usize, at: usize) -> (r: Bind)
        ensures
            r == self@.bind_at(b, at as int),
    {
        if b < self.sets.len() && at < self.sets[b].binds.len() {
            self.sets[b].binds[at]
        } else {
            Bind::Leaf(usize::MAX)
        }
    }

    fn rebind(&mut self, b: usize, at: usize, v: Bind)
        ensures
            final(self)@ == old(self)@.rebind(b, at as int, v),
    {
        if b < self.sets.len() {
            if at < self.sets[b].binds.len() {
                self.sets[b].binds.set(at, v);
            }
            proof {
                assert(self.sets@[b as int]@ =~= old(self)@.rebind(b, at as int, v).sets[b as int]);
            }
        }
        assert(self@.sets =~= old(self)@.rebind(b, at as int, v).sets);
    }

    fn place_of(&self, b: usize, name: &Text) -> (r: (usize, bool))
        ensures
            r.0 == position(self@.set(b).names, name@, 0),
            r.1 == (r.0 < self@.set(b).names.len()),
    {
        if b < self.sets.len() {
            let at = find_text(&self.sets[b].names, name);
            (at, at < self.sets[b].names.len())
        } else {
            (0, false)
        }
    }

    fn add_inherits(&mut self, b: usize, more: &Vec<usize>)
        ensures
            final(self)@ == old(self)@.set_put(
                b,
                (SetView {
                    inherits: old(self)@.set(b).inherits + more@,
                    ..old(self)@.set(b)
                }),
            ),
    {
        if b < self.sets.len() {
            append_all(&mut self.sets[b].inherits, more);
            proof {
                let s = old(self)@.set(b);
                let after = SetView { inherits: s.inherits + more@, ..s };
                assert(self.sets@[b as int]@ =~= after);
                assert(self@.sets =~= old(self)@.set_put(b, after).sets);
            }
        }
    }

    fn add_dynamic(&mut self, b: usize, attr: usize, value: usize)
        ensures
            final(self)@ == old(self)@.set_put(
                b,
                (SetView {
                    dynamic: old(self)@.set(b).dynamic.push((attr, value)),
                    ..old(self)@.set(b)
                }),
            ),
    {
        if b < self.sets.len() {
            self.sets[b].dynamic.push((attr, value));
            proof {
                let s = old(self)@.set(b);
                let after = SetView { dynamic: s.dynamic.push((attr, value)), ..s };
                assert(self.sets@[b as int]@ =~= after);
                assert(self@.sets =~= old(self)@.set_put(b, after).sets);
            }
        }
    }

    fn merge_literal(&mut self, t: &Tree, b: usize, lit: usize, fuel: usize) -> (r: Result<
        (),
        CompileError,
    >)
        ensures
            final(self)@.scopes == old(self)@.scopes,
            merged(r, final(self)@) == old(self)@.merge_literal(t@, b, lit, fuel as nat),
        decreases fuel, 0int, 0int,
    {
        if fuel == 0 {
            return Err(deep());
        }
        self.add_inherits(b, &t.children(lit, Class::Only(Kind::Inherit)));
        let pairs = t.children(lit, Class::Only(Kind::AttrpathValue));
        self.merge_pairs(t, b, &pairs, fuel - 1)
    }

    fn merge_pairs(&mut self, t: &Tree, b: usize, pairs: &Vec<usize>, fuel: usize) -> (r: Result<
        (),
        CompileError,
    >)
        ensures
            final(self)@.scopes == old(self)@.scopes,
            merged(r, final(self)@) == old(self)@.merge_pairs(t@, b, pairs@, 0, fuel as nat),
        decreases fuel, 3int, 0int,
    {
        let mut i: usize = 0;
        while i < pairs.len()
            invariant
                self@.scopes == old(self)@.scopes,
                i <= pairs.len(),
                self@.merge_pairs(t@, b, pairs@, i as int, fuel as nat)
                    == old(self)@.merge_pairs(t@, b, pairs@, 0, fuel as nat),
            decreases pairs.len() - i,
        {
            match self.merge_pair(t, b, pairs[i], fuel) {
                Err(e) => return Err(e),
                Ok(_) => {},
            }
            i += 1;
        }
        Ok(())
    }

    fn merge_pair(&mut self, t: &Tree, b: usize, pair: usize, fuel: usize) -> (r: Result<
        (),
        CompileError,
    >)
        ensures
            final(self)@.scopes == old(self)@.scopes,
            merged(r, final(self)@) == old(self)@.merge_pair(t@, b, pair, fuel as nat),
        decreases fuel, 2int, 0int,
    {
        let path = match t.nth(pair, Class::Only(Kind::Attrpath), 0) {
            None => return Err(bad_source("attr without name")),
            Some(path) => path,
        };
        let value = match t.nth(pair, Class::Exprs, 0) {
            None => return Err(bad_source("attr without value")),
            Some(value) => value,
        };
        let attrs = t.children(path, Class::Attrs);
        let none: Vec<Text> = Vec::new();
        assert(contents(none@) =~= Seq::empty());
        match static_names_of(t, &attrs, none) {
            Ok(names) => self.tree_insert(t, b, &names, 0, value, fuel),
            Err(CompileError::Unimplemented(_)) => {
                if attrs.len() == 1 {
                    self.add_dynamic(b, attrs[0], value);
                    Ok(())
                } else {
                    Err(unsupported("dynamic attribute name inside a nested attrpath"))
                }
            },
            Err(e) => Err(e),
        }
    }

    fn tree_insert(
        &mut self,
        t: &Tree,
        b: usize,
        path: &Vec<Text>,
        k: usize,
        value: usize,
        fuel: usize,
    ) -> (r: Result<(), CompileError>)
        ensures
            final(self)@.scopes == old(self)@.scopes,
            merged(r, final(self)@) == old(self)@.tree_insert(
                t@,
                b,
                contents(path@),
                k as int,
                value,
                fuel as nat,
            ),
        decreases fuel, 1int, path.len() - k,
    {
        if k >= path.len() {
            return Err(bad_source("empty attrpath"));
        }
        let (at, known) = self.place_of(b, &path[k]);
        if k + 1 == path.len() {
            if !known {
                self.bind_name(b, &path[k], Bind::Leaf(value));
                return Ok(());
            }
            if t.kind(value) != Kind::AttrSet {
                return Err(bad_name("attribute '", &path[k], "' already defined"));
            }
            return match self.promote(t, b, at, &path[k], fuel) {
                Err(e) => Err(e),
                Ok(node) => self.merge_literal(t, node, value, fuel),
            };
        }
        if !known {
            let node = self.new_set(false);
            self.bind_name(b, &path[k], Bind::Node(node));
        }
        match self.promote(t, b, at, &path[k], fuel) {
            Err(e) => Err(e),
            Ok(node) => self.tree_insert(t, node, path, k + 1, value, fuel),
        }
    }

    fn promote(&mut self, t: &Tree, b: usize, at: usize, name: &Text, fuel: usize) -> (r: Result<
        usize,
        CompileError,
    >)
        ensures
            final(self)@.scopes == old(self)@.scopes,
            yielded(r, final(self)@) == old(self)@.promote(t@, b, at as int, name@, fuel as nat),
        decreases fuel, 0int, 1int,
    {
        match self.bind_at(b, at) {
            Bind::Node(node) => Ok(node),
            Bind::Leaf(e) => if t.kind(e) == Kind::AttrSet {
                let rec = t.nth(e, Class::Only(Kind::RecToken), 0).is_some();
                let node = self.new_set(rec);
                match self.merge_literal(t, node, e, fuel) {
                    Err(e) => Err(e),
                    Ok(_) => {
                        self.rebind(b, at, Bind::Node(node));
                        Ok(node)
                    },
                }
            } else {
                Err(bad_name("attribute '", name, "' already defined"))
            },
        }
    }

    pub fn build_entries(&mut self, t: &Tree, lit: usize, rec: bool, fuel: usize) -> (r: Result<
        usize,
        CompileError,
    >)
        ensures
            final(self)@.scopes == old(self)@.scopes,
            yielded(r, final(self)@) == old(self)@.build_entries(t@, lit, rec, fuel as nat),
    {
        let node = self.new_set(rec);
        match self.merge_literal(t, node, lit, fuel) {
            Err(e) => Err(e),
            Ok(_) => Ok(node),
        }
    }
}

} // verus!
