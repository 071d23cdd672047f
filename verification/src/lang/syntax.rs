//! The syntax tree of a source text: what the parser found, flattened into
//! preorder, and the questions the compiler asks of it.
use crate::lang::heap::contents;
use crate::lang::strings::is_text;
use crate::text::{append_all, copy_of, string_of, text_of, Text};
use vstd::prelude::*;

verus! {

// -- the parser --------------------------------------------------------------

/// One step of a walk over a syntax tree: entering (`open`) or leaving a node
/// or token of a kind. A token carries its text.
pub struct Event {
    pub open: bool,
    pub kind: String,
    pub text: String,
}

/// The model of [`Event`].
#[verifier::ext_equal]
pub struct EventView {
    pub open: bool,
    pub kind: Seq<char>,
    pub text: Seq<char>,
}

impl View for Event {
    type V = EventView;

    open spec fn view(&self) -> EventView {
        EventView { open: self.open, kind: self.kind@, text: self.text@ }
    }
}

pub open spec fn events_view(v: Seq<Event>) -> Seq<EventView> {
    Seq::new(v.len(), |i: int| v[i]@)
}

/// A walk or an error, as its model.
pub open spec fn walk_view(r: Result<Vec<Event>, String>) -> Result<Seq<EventView>, Seq<char>> {
    match r {
        Ok(v) => Ok(events_view(v@)),
        Err(e) => Err(e@),
    }
}

/// What `rnix::Root::parse` makes of a source text: the walk over its syntax
/// tree, or the first error.
pub uninterp spec fn parsed(src: Seq<char>) -> Result<Seq<EventView>, Seq<char>>;

/// `rnix::Root::parse`: the syntax tree, walked in order by
/// `preorder_with_tokens`, or the text of the first error. The result depends
/// on the source text alone.
#[verifier::external_body]
pub(crate) fn parse_source(src: &str) -> (r: Result<Vec<Event>, String>)
    ensures
        walk_view(r) == parsed(src@),
{
    let parse = rnix::Root::parse(src);
    if let Some(e) = parse.errors().first() {
        return Err(e.to_string());
    }
    let walk = parse.syntax().preorder_with_tokens().map(|w| {
        let (open, e) = match w {
            rowan::WalkEvent::Enter(e) => (true, e),
            rowan::WalkEvent::Leave(e) => (false, e),
        };
        let text = e.as_token().map(|t| t.text().to_owned()).unwrap_or_default();
        Event { open, kind: format!("{:?}", e.kind()), text }
    });
    Ok(walk.collect())
}

/// What `rnix::ast::Str::normalized_parts` makes of a string literal: its
/// literal parts unescaped and stripped of common indentation, and `None`
/// for each interpolation.
pub uninterp spec fn string_parts(src: Seq<char>) -> Seq<Option<Seq<char>>>;

pub open spec fn parts_view(v: Seq<Option<String>>) -> Seq<Option<Seq<char>>> {
    Seq::new(
        v.len(),
        |i: int|
            match v[i] {
                Some(s) => Some(s@),
                None => None,
            },
    )
}

/// `rnix::ast::Str::normalized_parts` on the literal that a source text
/// consists of. The result depends on that text alone.
#[verifier::external_body]
pub(crate) fn parts_of(src: &str) -> (r: Vec<Option<String>>)
    ensures
        parts_view(r@) == string_parts(src@),
{
    match rnix::Root::parse(src).ok().ok().and_then(|root| root.expr()) {
        Some(rnix::ast::Expr::Str(s)) => s.normalized_parts().into_iter().map(|p| match p {
            rnix::ast::InterpolPart::Literal(text) => Some(text),
            rnix::ast::InterpolPart::Interpolation(_) => None,
        }).collect(),
        _ => Vec::new(),
    }
}

// -- kinds -------------------------------------------------------------------

/// The kinds of nodes and tokens that the compiler tells apart.
#[derive(Debug, Clone, Copy, PartialEq, Eq, Structural)]
pub enum Kind {
    Apply,
    Assert,
    Attrpath,
    Dynamic,
    Error,
    Ident,
    IfElse,
    Select,
    Inherit,
    InheritFrom,
    Str,
    Interpol,
    Lambda,
    IdentParam,
    LegacyLet,
    LetIn,
    List,
    BinOp,
    Paren,
    Pattern,
    PatBind,
    PatEntry,
    Root,
    AttrSet,
    AttrpathValue,
    UnaryOp,
    Literal,
    With,
    Path,
    HasAttr,
    FloatToken,
    IdentToken,
    IntegerToken,
    UriToken,
    RecToken,
    EllipsisToken,
    Concat,
    Invert,
    Update,
    Add,
    Sub,
    Mul,
    Div,
    And,
    Equal,
    Implication,
    Less,
    LessOrEq,
    More,
    MoreOrEq,
    NotEqual,
    Or,
    PipeRight,
    PipeLeft,
    Other,
}

/// The kind with a name.
pub open spec fn kind_named(name: Seq<char>) -> Kind {
    if name == "NODE_APPLY"@ {
        Kind::Apply
    } else if name == "NODE_ASSERT"@ {
        Kind::Assert
    } else if name == "NODE_ATTRPATH"@ {
        Kind::Attrpath
    } else if name == "NODE_DYNAMIC"@ {
        Kind::Dynamic
    } else if name == "NODE_ERROR"@ {
        Kind::Error
    } else if name == "NODE_IDENT"@ {
        Kind::Ident
    } else if name == "NODE_IF_ELSE"@ {
        Kind::IfElse
    } else if name == "NODE_SELECT"@ {
        Kind::Select
    } else if name == "NODE_INHERIT"@ {
        Kind::Inherit
    } else if name == "NODE_INHERIT_FROM"@ {
        Kind::InheritFrom
    } else if name == "NODE_STRING"@ {
        Kind::Str
    } else if name == "NODE_INTERPOL"@ {
        Kind::Interpol
    } else if name == "NODE_LAMBDA"@ {
        Kind::Lambda
    } else if name == "NODE_IDENT_PARAM"@ {
        Kind::IdentParam
    } else if name == "NODE_LEGACY_LET"@ {
        Kind::LegacyLet
    } else if name == "NODE_LET_IN"@ {
        Kind::LetIn
    } else if name == "NODE_LIST"@ {
        Kind::List
    } else if name == "NODE_BIN_OP"@ {
        Kind::BinOp
    } else if name == "NODE_PAREN"@ {
        Kind::Paren
    } else if name == "NODE_PATTERN"@ {
        Kind::Pattern
    } else if name == "NODE_PAT_BIND"@ {
        Kind::PatBind
    } else if name == "NODE_PAT_ENTRY"@ {
        Kind::PatEntry
    } else if name == "NODE_ROOT"@ {
        Kind::Root
    } else if name == "NODE_ATTR_SET"@ {
        Kind::AttrSet
    } else if name == "NODE_ATTRPATH_VALUE"@ {
        Kind::AttrpathValue
    } else if name == "NODE_UNARY_OP"@ {
        Kind::UnaryOp
    } else if name == "NODE_LITERAL"@ {
        Kind::Literal
    } else if name == "NODE_WITH"@ {
        Kind::With
    } else if name == "NODE_PATH"@ {
        Kind::Path
    } else if name == "NODE_HAS_ATTR"@ {
        Kind::HasAttr
    } else if name == "TOKEN_FLOAT"@ {
        Kind::FloatToken
    } else if name == "TOKEN_IDENT"@ {
        Kind::IdentToken
    } else if name == "TOKEN_INTEGER"@ {
        Kind::IntegerToken
    } else if name == "TOKEN_URI"@ {
        Kind::UriToken
    } else if name == "TOKEN_REC"@ {
        Kind::RecToken
    } else if name == "TOKEN_ELLIPSIS"@ {
        Kind::EllipsisToken
    } else if name == "TOKEN_CONCAT"@ {
        Kind::Concat
    } else if name == "TOKEN_INVERT"@ {
        Kind::Invert
    } else if name == "TOKEN_UPDATE"@ {
        Kind::Update
    } else if name == "TOKEN_ADD"@ {
        Kind::Add
    } else if name == "TOKEN_SUB"@ {
        Kind::Sub
    } else if name == "TOKEN_MUL"@ {
        Kind::Mul
    } else if name == "TOKEN_DIV"@ {
        Kind::Div
    } else if name == "TOKEN_AND_AND"@ {
        Kind::And
    } else if name == "TOKEN_EQUAL"@ {
        Kind::Equal
    } else if name == "TOKEN_IMPLICATION"@ {
        Kind::Implication
    } else if name == "TOKEN_LESS"@ {
        Kind::Less
    } else if name == "TOKEN_LESS_OR_EQ"@ {
        Kind::LessOrEq
    } else if name == "TOKEN_MORE"@ {
        Kind::More
    } else if name == "TOKEN_MORE_OR_EQ"@ {
        Kind::MoreOrEq
    } else if name == "TOKEN_NOT_EQUAL"@ {
        Kind::NotEqual
    } else if name == "TOKEN_OR_OR"@ {
        Kind::Or
    } else if name == "TOKEN_PIPE_RIGHT"@ {
        Kind::PipeRight
    } else if name == "TOKEN_PIPE_LEFT"@ {
        Kind::PipeLeft
    } else {
        Kind::Other
    }
}

pub fn kind_of(name: &Text) -> (k: Kind)
    ensures
        k == kind_named(name@),
{
    if is_text(name, "NODE_APPLY") {
        Kind::Apply
    } else if is_text(name, "NODE_ASSERT") {
        Kind::Assert
    } else if is_text(name, "NODE_ATTRPATH") {
        Kind::Attrpath
    } else if is_text(name, "NODE_DYNAMIC") {
        Kind::Dynamic
    } else if is_text(name, "NODE_ERROR") {
        Kind::Error
    } else if is_text(name, "NODE_IDENT") {
        Kind::Ident
    } else if is_text(name, "NODE_IF_ELSE") {
        Kind::IfElse
    } else if is_text(name, "NODE_SELECT") {
        Kind::Select
    } else if is_text(name, "NODE_INHERIT") {
        Kind::Inherit
    } else if is_text(name, "NODE_INHERIT_FROM") {
        Kind::InheritFrom
    } else if is_text(name, "NODE_STRING") {
        Kind::Str
    } else if is_text(name, "NODE_INTERPOL") {
        Kind::Interpol
    } else if is_text(name, "NODE_LAMBDA") {
        Kind::Lambda
    } else if is_text(name, "NODE_IDENT_PARAM") {
        Kind::IdentParam
    } else if is_text(name, "NODE_LEGACY_LET") {
        Kind::LegacyLet
    } else if is_text(name, "NODE_LET_IN") {
        Kind::LetIn
    } else if is_text(name, "NODE_LIST") {
        Kind::List
    } else if is_text(name, "NODE_BIN_OP") {
        Kind::BinOp
    } else if is_text(name, "NODE_PAREN") {
        Kind::Paren
    } else if is_text(name, "NODE_PATTERN") {
        Kind::Pattern
    } else if is_text(name, "NODE_PAT_BIND") {
        Kind::PatBind
    } else if is_text(name, "NODE_PAT_ENTRY") {
        Kind::PatEntry
    } else if is_text(name, "NODE_ROOT") {
        Kind::Root
    } else if is_text(name, "NODE_ATTR_SET") {
        Kind::AttrSet
    } else if is_text(name, "NODE_ATTRPATH_VALUE") {
        Kind::AttrpathValue
    } else if is_text(name, "NODE_UNARY_OP") {
        Kind::UnaryOp
    } else if is_text(name, "NODE_LITERAL") {
        Kind::Literal
    } else if is_text(name, "NODE_WITH") {
        Kind::With
    } else if is_text(name, "NODE_PATH") {
        Kind::Path
    } else if is_text(name, "NODE_HAS_ATTR") {
        Kind::HasAttr
    } else if is_text(name, "TOKEN_FLOAT") {
        Kind::FloatToken
    } else if is_text(name, "TOKEN_IDENT") {
        Kind::IdentToken
    } else if is_text(name, "TOKEN_INTEGER") {
        Kind::IntegerToken
    } else if is_text(name, "TOKEN_URI") {
        Kind::UriToken
    } else if is_text(name, "TOKEN_REC") {
        Kind::RecToken
    } else if is_text(name, "TOKEN_ELLIPSIS") {
        Kind::EllipsisToken
    } else if is_text(name, "TOKEN_CONCAT") {
        Kind::Concat
    } else if is_text(name, "TOKEN_INVERT") {
        Kind::Invert
    } else if is_text(name, "TOKEN_UPDATE") {
        Kind::Update
    } else if is_text(name, "TOKEN_ADD") {
        Kind::Add
    } else if is_text(name, "TOKEN_SUB") {
        Kind::Sub
    } else if is_text(name, "TOKEN_MUL") {
        Kind::Mul
    } else if is_text(name, "TOKEN_DIV") {
        Kind::Div
    } else if is_text(name, "TOKEN_AND_AND") {
        Kind::And
    } else if is_text(name, "TOKEN_EQUAL") {
        Kind::Equal
    } else if is_text(name, "TOKEN_IMPLICATION") {
        Kind::Implication
    } else if is_text(name, "TOKEN_LESS") {
        Kind::Less
    } else if is_text(name, "TOKEN_LESS_OR_EQ") {
        Kind::LessOrEq
    } else if is_text(name, "TOKEN_MORE") {
        Kind::More
    } else if is_text(name, "TOKEN_MORE_OR_EQ") {
        Kind::MoreOrEq
    } else if is_text(name, "TOKEN_NOT_EQUAL") {
        Kind::NotEqual
    } else if is_text(name, "TOKEN_OR_OR") {
        Kind::Or
    } else if is_text(name, "TOKEN_PIPE_RIGHT") {
        Kind::PipeRight
    } else if is_text(name, "TOKEN_PIPE_LEFT") {
        Kind::PipeLeft
    } else {
        Kind::Other
    }
}

/// A set of kinds.
#[derive(Debug, Clone, Copy, PartialEq, Eq, Structural)]
pub enum Class {
    Only(Kind),
    Exprs,
    Attrs,
    Params,
    /// The tokens of unary operators.
    Unary,
    /// The tokens of binary operators.
    Binary,
}

pub open spec fn in_class(k: Kind, c: Class) -> bool {
    match c {
        Class::Only(x) => k == x,
        Class::Exprs => k matches (Kind::Apply
            | Kind::Assert
            | Kind::Error
            | Kind::IfElse
            | Kind::Select
            | Kind::Str
            | Kind::Path
            | Kind::Literal
            | Kind::Lambda
            | Kind::LegacyLet
            | Kind::LetIn
            | Kind::List
            | Kind::BinOp
            | Kind::Paren
            | Kind::Root
            | Kind::AttrSet
            | Kind::UnaryOp
            | Kind::Ident
            | Kind::With
            | Kind::HasAttr),
        Class::Attrs => k matches (Kind::Ident | Kind::Dynamic | Kind::Str),
        Class::Params => k matches (Kind::Pattern | Kind::IdentParam),
        Class::Unary => k matches (Kind::Invert | Kind::Sub),
        Class::Binary => k matches (Kind::Concat
            | Kind::Update
            | Kind::Add
            | Kind::Sub
            | Kind::Mul
            | Kind::Div
            | Kind::And
            | Kind::Equal
            | Kind::Implication
            | Kind::Less
            | Kind::LessOrEq
            | Kind::More
            | Kind::MoreOrEq
            | Kind::NotEqual
            | Kind::Or
            | Kind::PipeRight
            | Kind::PipeLeft),
    }
}

pub fn is_in_class(k: Kind, c: Class) -> (r: bool)
    ensures
        r == in_class(k, c),
{
    match c {
        Class::Only(x) => k == x,
        Class::Exprs => matches!(k, Kind::Apply
            | Kind::Assert
            | Kind::Error
            | Kind::IfElse
            | Kind::Select
            | Kind::Str
            | Kind::Path
            | Kind::Literal
            | Kind::Lambda
            | Kind::LegacyLet
            | Kind::LetIn
            | Kind::List
            | Kind::BinOp
            | Kind::Paren
            | Kind::Root
            | Kind::AttrSet
            | Kind::UnaryOp
            | Kind::Ident
            | Kind::With
            | Kind::HasAttr),
        Class::Attrs => matches!(k, Kind::Ident | Kind::Dynamic | Kind::Str),
        Class::Params => matches!(k, Kind::Pattern | Kind::IdentParam),
        Class::Unary => matches!(k, Kind::Invert | Kind::Sub),
        Class::Binary => matches!(k, Kind::Concat
            | Kind::Update
            | Kind::Add
            | Kind::Sub
            | Kind::Mul
            | Kind::Div
            | Kind::And
            | Kind::Equal
            | Kind::Implication
            | Kind::Less
            | Kind::LessOrEq
            | Kind::More
            | Kind::MoreOrEq
            | Kind::NotEqual
            | Kind::Or
            | Kind::PipeRight
            | Kind::PipeLeft),
    }
}

// -- the tree ----------------------------------------------------------------

/// A syntax tree in preorder. Node `i` covers the positions from `i` up to
/// its end; its children follow it, each at the end of the one before.
pub struct Tree {
    pub kinds: Vec<Kind>,
    pub ends: Vec<usize>,
    pub texts: Vec<Text>,
}

/// The model of [`Tree`].
#[verifier::ext_equal]
pub struct TreeView {
    pub kinds: Seq<Kind>,
    pub ends: Seq<usize>,
    pub texts: Seq<Seq<char>>,
}

impl View for Tree {
    type V = TreeView;

    open spec fn view(&self) -> TreeView {
        TreeView { kinds: self.kinds@, ends: self.ends@, texts: contents(self.texts@) }
    }
}

/// The tree with nothing in it.
pub open spec fn no_tree() -> TreeView {
    TreeView { kinds: Seq::empty(), ends: Seq::empty(), texts: Seq::empty() }
}

impl TreeView {
    /// The tree of a walk: entering appends, leaving closes what was entered
    /// last.
    pub open spec fn grown(self, walk: Seq<EventView>, i: int, open: Seq<usize>) -> TreeView
        decreases walk.len() - i,
    {
        if i >= walk.len() {
            self
        } else if walk[i].open {
            TreeView {
                kinds: self.kinds.push(kind_named(walk[i].kind)),
                ends: self.ends.push(0),
                texts: self.texts.push(walk[i].text),
            }.grown(walk, i + 1, open.push(self.kinds.len() as usize))
        } else if open.len() > 0 {
            TreeView {
                ends: if open.last() < self.ends.len() {
                    self.ends.update(open.last() as int, self.kinds.len() as usize)
                } else {
                    self.ends
                },
                ..self
            }.grown(walk, i + 1, open.drop_last())
        } else {
            self.grown(walk, i + 1, open)
        }
    }

    pub open spec fn kind(self, i: usize) -> Kind {
        if i < self.kinds.len() {
            self.kinds[i as int]
        } else {
            Kind::Other
        }
    }

    pub open spec fn end(self, i: usize) -> usize {
        if i < self.ends.len() {
            self.ends[i as int]
        } else {
            0
        }
    }

    pub open spec fn own_text(self, i: usize) -> Seq<char> {
        if i < self.texts.len() {
            self.texts[i as int]
        } else {
            Seq::empty()
        }
    }

    /// The nodes of a class from sibling `j` up to `stop`.
    pub open spec fn siblings(self, j: usize, stop: usize, c: Class) -> Seq<usize>
        decreases usize::MAX - j,
    {
        if j >= stop || self.end(j) <= j {
            Seq::empty()
        } else {
            let rest = self.siblings(self.end(j), stop, c);
            if in_class(self.kind(j), c) {
                seq![j] + rest
            } else {
                rest
            }
        }
    }

    /// The children of a class.
    pub open spec fn children(self, i: usize, c: Class) -> Seq<usize> {
        if i < usize::MAX {
            self.siblings((i + 1) as usize, self.end(i), c)
        } else {
            Seq::empty()
        }
    }

    /// The `n`-th child of a class.
    pub open spec fn nth(self, i: usize, c: Class, n: int) -> Option<usize> {
        let all = self.children(i, c);
        if 0 <= n < all.len() {
            Some(all[n])
        } else {
            None
        }
    }

    /// The texts from position `j` up to `stop`, one after the other.
    pub open spec fn joined_text(self, j: int, stop: int) -> Seq<char>
        decreases stop - j,
    {
        if j >= stop {
            Seq::empty()
        } else {
            self.joined_text(j, stop - 1) + self.own_text((stop - 1) as usize)
        }
    }

    /// The source text of a node.
    pub open spec fn text(self, i: usize) -> Seq<char> {
        self.joined_text(i as int, self.end(i) as int)
    }

    /// The name an identifier node holds.
    pub open spec fn name(self, i: usize) -> Option<Seq<char>> {
        match self.nth(i, Class::Only(Kind::IdentToken), 0) {
            Some(k) => Some(self.own_text(k)),
            None => None,
        }
    }

    /// The name under a node that holds one identifier.
    pub open spec fn name_under(self, i: usize) -> Option<Seq<char>> {
        match self.nth(i, Class::Only(Kind::Ident), 0) {
            Some(k) => self.name(k),
            None => None,
        }
    }
}

/// An optional text as its model.
pub open spec fn opt_view(t: Option<Text>) -> Option<Seq<char>> {
    match t {
        Some(t) => Some(t@),
        None => None,
    }
}

impl Tree {
    pub fn grow(walk: &Vec<Event>) -> (t: Tree)
        ensures
            t@ == no_tree().grown(events_view(walk@), 0, Seq::empty()),
    {
        let mut t = Tree { kinds: Vec::new(), ends: Vec::new(), texts: Vec::new() };
        let mut open: Vec<usize> = Vec::new();
        let mut i: usize = 0;
        assert(t@ =~= no_tree());
        while i < walk.len()
            invariant
                i <= walk.len(),
                t@.grown(events_view(walk@), i as int, open@) == no_tree().grown(
                    events_view(walk@),
                    0,
                    Seq::empty(),
                ),
            decreases walk.len() - i,
        {
            let ghost before = t@;
            if walk[i].open {
                open.push(t.kinds.len());
                let text = text_of(&walk[i].text);
                t.kinds.push(kind_of(&text_of(&walk[i].kind)));
                t.ends.push(0);
                t.texts.push(text);
                assert(t@ =~= (TreeView {
                    kinds: before.kinds.push(kind_named(walk@[i as int]@.kind)),
                    ends: before.ends.push(0),
                    texts: before.texts.push(walk@[i as int]@.text),
                }));
            } else {
                let n = t.kinds.len();
                match open.pop() {
                    Some(at) => {
                        if at < t.ends.len() {
                            t.ends.set(at, n);
                        }
                    },
                    None => {},
                }
            }
            i += 1;
        }
        t
    }

    pub fn kind(&self, i: usize) -> (k: Kind)
        ensures
            k == self@.kind(i),
    {
        if i < self.kinds.len() {
            self.kinds[i]
        } else {
            Kind::Other
        }
    }

    pub fn end(&self, i: usize) -> (r: usize)
        ensures
            r == self@.end(i),
    {
        if i < self.ends.len() {
            self.ends[i]
        } else {
            0
        }
    }

    pub fn own_text(&self, i: usize) -> (t: Text)
        ensures
            t@ == self@.own_text(i),
    {
        if i < self.texts.len() {
            copy_of(&self.texts[i])
        } else {
            Vec::new()
        }
    }

    pub fn children(&self, i: usize, c: Class) -> (r: Vec<usize>)
        ensures
            r@ == self@.children(i, c),
    {
        let mut out: Vec<usize> = Vec::new();
        if i == usize::MAX {
            return out;
        }
        let stop = self.end(i);
        let mut j: usize = i + 1;
        while j < stop && self.end(j) > j
            invariant
                out@ + self@.siblings(j, stop, c) == self@.siblings((i + 1) as usize, stop, c),
            decreases usize::MAX - j,
        {
            let ghost had = out@;
            let next = self.end(j);
            if is_in_class(self.kind(j), c) {
                out.push(j);
                assert(had + self@.siblings(j, stop, c) =~= out@ + self@.siblings(next, stop, c));
            }
            j = next;
        }
        assert(out@ =~= self@.siblings((i + 1) as usize, stop, c));
        out
    }

    pub fn nth(&self, i: usize, c: Class, n: usize) -> (r: Option<usize>)
        ensures
            r == self@.nth(i, c, n as int),
    {
        let all = self.children(i, c);
        if n < all.len() {
            Some(all[n])
        } else {
            None
        }
    }

    pub fn text(&self, i: usize) -> (t: Text)
        ensures
            t@ == self@.text(i),
    {
        let stop = self.end(i);
        let mut out: Text = Vec::new();
        let mut j: usize = i;
        while j < stop
            invariant
                i <= j,
                j <= stop || j == i,
                out@ == self@.joined_text(i as int, j as int),
            decreases stop - j,
        {
            append_all(&mut out, &self.own_text(j));
            j += 1;
        }
        out
    }

    pub fn name(&self, i: usize) -> (t: Option<Text>)
        ensures
            opt_view(t) == self@.name(i),
    {
        match self.nth(i, Class::Only(Kind::IdentToken), 0) {
            Some(k) => Some(self.own_text(k)),
            None => None,
        }
    }

    pub fn name_under(&self, i: usize) -> (t: Option<Text>)
        ensures
            opt_view(t) == self@.name_under(i),
    {
        match self.nth(i, Class::Only(Kind::Ident), 0) {
            Some(k) => self.name(k),
            None => None,
        }
    }
}

/// The parts of a string literal, given its source text.
pub fn literal_parts(src: &Text) -> (r: Vec<Option<Text>>)
    ensures
        r.len() == string_parts(src@).len(),
        forall|i: int|
            0 <= i < r.len() ==> opt_view(#[trigger] r@[i]) == string_parts(src@)[i],
{
    let parts = parts_of(&string_of(src));
    let mut out: Vec<Option<Text>> = Vec::new();
    let mut i: usize = 0;
    while i < parts.len()
        invariant
            i <= parts.len(),
            out.len() == i,
            forall|j: int|
                0 <= j < i ==> opt_view(#[trigger] out@[j]) == parts_view(parts@)[j],
        decreases parts.len() - i,
    {
        let t = match &parts[i] {
            Some(s) => Some(text_of(s)),
            None => None,
        };
        out.push(t);
        i += 1;
    }
    out
}

} // verus!
