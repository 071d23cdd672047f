//! JSON and TOML documents as values.
use crate::lang::heap::{bind, set_bind, Fault, Heap, HeapView, Slot, Sym, Value};
use crate::lang::strings::{digit, digits_value, is_digit, nul_check, nul_complaint};
use crate::text::{append_all, text_of, Text};
use serde_json::Value as Json;
use toml::Value as Toml;
use vstd::prelude::*;

verus! {

/// One node of a document.
pub enum DocNode {
    Null,
    Bool(bool),
    Int(i64),
    /// A float, by its bit pattern.
    Float(u64),
    /// A number in decimal. The parser holds an integer of more than 64 bits as
    /// a float, and that is how it is written then.
    Number(String),
    Str(String),
    /// A date or a time.
    Stamp,
    /// A list of this many nodes, which follow.
    Array(usize),
    /// A table of this many nodes, which follow, each with its key.
    Table(usize),
}

/// A document in preorder: each node, with the key it stands under.
pub struct DocCell {
    pub key: Option<String>,
    pub node: DocNode,
}

/// The model of [`DocNode`].
pub enum DocNodeView {
    Null,
    Bool(bool),
    Int(i64),
    Float(u64),
    Number(Seq<char>),
    Str(Seq<char>),
    Stamp,
    Array(usize),
    Table(usize),
}

/// The model of [`DocCell`].
pub struct DocCellView {
    pub key: Option<Seq<char>>,
    pub node: DocNodeView,
}

impl View for DocNode {
    type V = DocNodeView;

    open spec fn view(&self) -> DocNodeView {
        match self {
            DocNode::Null => DocNodeView::Null,
            DocNode::Bool(b) => DocNodeView::Bool(*b),
            DocNode::Int(n) => DocNodeView::Int(*n),
            DocNode::Float(x) => DocNodeView::Float(*x),
            DocNode::Number(t) => DocNodeView::Number(t@),
            DocNode::Str(t) => DocNodeView::Str(t@),
            DocNode::Stamp => DocNodeView::Stamp,
            DocNode::Array(n) => DocNodeView::Array(*n),
            DocNode::Table(n) => DocNodeView::Table(*n),
        }
    }
}

impl View for DocCell {
    type V = DocCellView;

    open spec fn view(&self) -> DocCellView {
        DocCellView {
            key: match self.key {
                Some(k) => Some(k@),
                None => None,
            },
            node: self.node@,
        }
    }
}

pub open spec fn cells_view(v: Seq<DocCell>) -> Seq<DocCellView> {
    Seq::new(v.len(), |i: int| v[i]@)
}

/// A document or an error, as its model.
pub open spec fn doc_view(r: Result<Vec<DocCell>, String>) -> Result<
    Seq<DocCellView>,
    Seq<char>,
> {
    match r {
        Ok(v) => Ok(cells_view(v@)),
        Err(e) => Err(e@),
    }
}

/// A key as its model.
pub open spec fn key_view(key: Option<String>) -> Option<Seq<char>> {
    match key {
        Some(k) => Some(k@),
        None => None,
    }
}

/// Cells of one value, put under a key.
pub open spec fn keyed(key: Option<Seq<char>>, cells: Seq<DocCellView>) -> Seq<DocCellView> {
    if cells.len() == 0 {
        cells
    } else {
        cells.update(0, DocCellView { key, ..cells[0] })
    }
}

/// `serde_json::Value`, a document held by the `serde_json` crate.
#[verifier::external_type_specification]
#[verifier::external_body]
pub struct ExJson(Json);

/// What `serde_json::from_str` makes of a text: the document in preorder, tables
/// in the order of their keys, or the message of its error.
pub uninterp spec fn json_document(src: Seq<char>) -> Result<Seq<DocCellView>, Seq<char>>;

/// What a `serde_json::Value` holds, in preorder: the value, then what it holds.
/// The first cell has no key.
pub uninterp spec fn json_cells(value: Json) -> Seq<DocCellView>;

/// Values in order, each under its key, as one sequence of cells.
pub open spec fn json_forest(kids: Seq<(Option<String>, Json)>) -> Seq<DocCellView>
    decreases kids.len(),
{
    if kids.len() == 0 {
        seq![]
    } else {
        keyed(key_view(kids[0].0), json_cells(kids[0].1)) + json_forest(kids.drop_first())
    }
}

/// `serde_json::from_str` into a `serde_json::Value`. The result depends on the text
/// alone and is named by [`json_document`].
#[verifier::external_body]
fn parse_json(src: &str) -> (r: Result<Json, String>)
    ensures
        match r {
            Ok(v) => json_document(src@) == Ok::<Seq<DocCellView>, Seq<char>>(json_cells(v)),
            Err(e) => json_document(src@) == Err::<Seq<DocCellView>, Seq<char>>(e@),
        },
{
    serde_json::from_str(src).map_err(|e| e.to_string())
}

/// The variant of a `serde_json::Value`, which is the first of its cells.
#[verifier::external_body]
fn json_node(value: &Json) -> (r: DocNode)
    ensures
        json_cells(*value) == seq![(DocCellView { key: None, node: r@ })] + json_cells(
            *value,
        ).skip(1),
{
    match value {
        Json::Null => DocNode::Null,
        Json::Bool(b) => DocNode::Bool(*b),
        Json::Number(n) => DocNode::Number(n.to_string()),
        Json::String(s) => DocNode::Str(s.clone()),
        Json::Array(a) => DocNode::Array(a.len()),
        Json::Object(m) => DocNode::Table(m.len()),
    }
}

/// The values that a `serde_json::Value` holds directly, with their keys: they are
/// the rest of its cells.
#[verifier::external_body]
fn json_kids(value: Json) -> (r: Vec<(Option<String>, Json)>)
    ensures
        json_cells(value) == seq![json_cells(value)[0]] + json_forest(r@),
{
    match value {
        Json::Array(a) => a.into_iter().map(|v| (None, v)).collect(),
        Json::Object(m) => m.into_iter().map(|(k, v)| (Some(k), v)).collect(),
        _ => Vec::new(),
    }
}

/// The cells of a stack, the topmost value first.
spec fn json_stacked(todo: Seq<(Option<String>, Json)>) -> Seq<DocCellView>
    decreases todo.len(),
{
    if todo.len() == 0 {
        seq![]
    } else {
        keyed(key_view(todo.last().0), json_cells(todo.last().1)) + json_stacked(todo.drop_last())
    }
}

fn stack_json(todo: &mut Vec<(Option<String>, Json)>, kids: Vec<(Option<String>, Json)>)
    ensures
        json_stacked(final(todo)@) == json_forest(kids@) + json_stacked(old(todo)@),
{
    let mut kids = kids;
    let ghost all = kids@;
    assert(json_forest(all.skip(all.len() as int)) =~= seq![]);
    assert(all.take(all.len() as int) =~= all);
    while kids.len() > 0
        invariant
            kids@ == all.take(kids@.len() as int),
            kids@.len() <= all.len(),
            json_stacked(todo@) == json_forest(all.skip(kids@.len() as int)) + json_stacked(
                old(todo)@,
            ),
        decreases kids.len(),
    {
        let ghost n = kids@.len() as int;
        let ghost before = todo@;
        if let Some(kid) = kids.pop() {
            todo.push(kid);
            proof {
                assert(kid == all[n - 1]);
                assert(kids@ =~= all.take(n - 1));
                assert(todo@.drop_last() =~= before);
                assert(all.skip(n - 1).drop_first() =~= all.skip(n));
                assert(json_stacked(todo@) =~= json_forest(all.skip(n - 1)) + json_stacked(
                    old(todo)@,
                ));
            }
        }
    }
    assert(all.skip(0) =~= all);
}

/// A document in preorder.
pub fn read_json(src: &str) -> (r: Result<Vec<DocCell>, String>)
    ensures
        doc_view(r) == json_document(src@),
{
    let doc = match parse_json(src) {
        Ok(v) => v,
        Err(e) => return Err(e),
    };
    let ghost all = json_cells(doc);
    let mut todo: Vec<(Option<String>, Json)> = Vec::new();
    let mut out: Vec<DocCell> = Vec::new();
    let _ = json_node(&doc);
    todo.push((None, doc));
    proof {
        assert(todo@.drop_last() =~= seq![]);
        assert(keyed(None, all) =~= all);
        assert(json_stacked(todo@.drop_last()) =~= seq![]);
        assert(todo@.last().1 == doc);
        assert(json_stacked(todo@) =~= all);
        assert(cells_view(out@) + json_stacked(todo@) =~= all);
    }
    while todo.len() > 0
        invariant
            cells_view(out@) + json_stacked(todo@) == all,
        decreases json_stacked(todo@).len(), todo@.len(),
    {
        let ghost before = todo@;
        if let Some((key, value)) = todo.pop() {
            let ghost v = value;
            let ghost k = key_view(key);
            let ghost said = out@;
            assert(todo@ =~= before.drop_last());
            let node = json_node(&value);
            let kids = json_kids(value);
            out.push(DocCell { key, node });
            stack_json(&mut todo, kids);
            proof {
                let cell = DocCellView { key: k, node: node@ };
                let cells = json_cells(v);
                assert(cells[0] == (DocCellView { key: None, node: node@ }));
                assert(cells.skip(1) =~= json_forest(kids@));
                assert(keyed(k, cells) =~= seq![cell] + cells.skip(1));
                assert(cells_view(out@) =~= cells_view(said).push(cell));
                assert(json_stacked(before) =~= seq![cell] + json_stacked(todo@));
                assert(cells_view(out@) + json_stacked(todo@) =~= cells_view(said)
                    + json_stacked(before));
            }
        }
    }
    assert(cells_view(out@) =~= all);
    Ok(out)
}

/// `toml::Value`, a document held by the `toml` crate.
#[verifier::external_type_specification]
#[verifier::external_body]
pub struct ExToml(Toml);

/// What `toml::from_str` makes of a text: the document in preorder, tables
/// in the order of their keys, or the message of its error.
pub uninterp spec fn toml_document(src: Seq<char>) -> Result<Seq<DocCellView>, Seq<char>>;

/// What a `toml::Value` holds, in preorder: the value, then what it holds.
/// The first cell has no key.
pub uninterp spec fn toml_cells(value: Toml) -> Seq<DocCellView>;

/// Values in order, each under its key, as one sequence of cells.
pub open spec fn toml_forest(kids: Seq<(Option<String>, Toml)>) -> Seq<DocCellView>
    decreases kids.len(),
{
    if kids.len() == 0 {
        seq![]
    } else {
        keyed(key_view(kids[0].0), toml_cells(kids[0].1)) + toml_forest(kids.drop_first())
    }
}

/// `toml::from_str` into a `toml::Value`. The result depends on the text
/// alone and is named by [`toml_document`].
#[verifier::external_body]
fn parse_toml(src: &str) -> (r: Result<Toml, String>)
    ensures
        match r {
            Ok(v) => toml_document(src@) == Ok::<Seq<DocCellView>, Seq<char>>(toml_cells(v)),
            Err(e) => toml_document(src@) == Err::<Seq<DocCellView>, Seq<char>>(e@),
        },
{
    toml::from_str(src).map_err(|e| e.message().to_owned())
}

/// The variant of a `toml::Value`, which is the first of its cells.
#[verifier::external_body]
fn toml_node(value: &Toml) -> (r: DocNode)
    ensures
        toml_cells(*value) == seq![(DocCellView { key: None, node: r@ })] + toml_cells(
            *value,
        ).skip(1),
{
    match value {
        Toml::Boolean(b) => DocNode::Bool(*b),
        Toml::Integer(n) => DocNode::Int(*n),
        Toml::Float(x) => DocNode::Float(x.to_bits()),
        Toml::String(s) => DocNode::Str(s.clone()),
        Toml::Datetime(_) => DocNode::Stamp,
        Toml::Array(a) => DocNode::Array(a.len()),
        Toml::Table(m) => DocNode::Table(m.len()),
    }
}

/// The values that a `toml::Value` holds directly, with their keys: they are
/// the rest of its cells.
#[verifier::external_body]
fn toml_kids(value: Toml) -> (r: Vec<(Option<String>, Toml)>)
    ensures
        toml_cells(value) == seq![toml_cells(value)[0]] + toml_forest(r@),
{
    match value {
        Toml::Array(a) => a.into_iter().map(|v| (None, v)).collect(),
        Toml::Table(m) => m.into_iter().map(|(k, v)| (Some(k), v)).collect(),
        _ => Vec::new(),
    }
}

/// The cells of a stack, the topmost value first.
spec fn toml_stacked(todo: Seq<(Option<String>, Toml)>) -> Seq<DocCellView>
    decreases todo.len(),
{
    if todo.len() == 0 {
        seq![]
    } else {
        keyed(key_view(todo.last().0), toml_cells(todo.last().1)) + toml_stacked(todo.drop_last())
    }
}

fn stack_toml(todo: &mut Vec<(Option<String>, Toml)>, kids: Vec<(Option<String>, Toml)>)
    ensures
        toml_stacked(final(todo)@) == toml_forest(kids@) + toml_stacked(old(todo)@),
{
    let mut kids = kids;
    let ghost all = kids@;
    assert(toml_forest(all.skip(all.len() as int)) =~= seq![]);
    assert(all.take(all.len() as int) =~= all);
    while kids.len() > 0
        invariant
            kids@ == all.take(kids@.len() as int),
            kids@.len() <= all.len(),
            toml_stacked(todo@) == toml_forest(all.skip(kids@.len() as int)) + toml_stacked(
                old(todo)@,
            ),
        decreases kids.len(),
    {
        let ghost n = kids@.len() as int;
        let ghost before = todo@;
        if let Some(kid) = kids.pop() {
            todo.push(kid);
            proof {
                assert(kid == all[n - 1]);
                assert(kids@ =~= all.take(n - 1));
                assert(todo@.drop_last() =~= before);
                assert(all.skip(n - 1).drop_first() =~= all.skip(n));
                assert(toml_stacked(todo@) =~= toml_forest(all.skip(n - 1)) + toml_stacked(
                    old(todo)@,
                ));
            }
        }
    }
    assert(all.skip(0) =~= all);
}

/// A document in preorder.
pub fn read_toml(src: &str) -> (r: Result<Vec<DocCell>, String>)
    ensures
        doc_view(r) == toml_document(src@),
{
    let doc = match parse_toml(src) {
        Ok(v) => v,
        Err(e) => return Err(e),
    };
    let ghost all = toml_cells(doc);
    let mut todo: Vec<(Option<String>, Toml)> = Vec::new();
    let mut out: Vec<DocCell> = Vec::new();
    let _ = toml_node(&doc);
    todo.push((None, doc));
    proof {
        assert(todo@.drop_last() =~= seq![]);
        assert(keyed(None, all) =~= all);
        assert(toml_stacked(todo@.drop_last()) =~= seq![]);
        assert(todo@.last().1 == doc);
        assert(toml_stacked(todo@) =~= all);
        assert(cells_view(out@) + toml_stacked(todo@) =~= all);
    }
    while todo.len() > 0
        invariant
            cells_view(out@) + toml_stacked(todo@) == all,
        decreases toml_stacked(todo@).len(), todo@.len(),
    {
        let ghost before = todo@;
        if let Some((key, value)) = todo.pop() {
            let ghost v = value;
            let ghost k = key_view(key);
            let ghost said = out@;
            assert(todo@ =~= before.drop_last());
            let node = toml_node(&value);
            let kids = toml_kids(value);
            out.push(DocCell { key, node });
            stack_toml(&mut todo, kids);
            proof {
                let cell = DocCellView { key: k, node: node@ };
                let cells = toml_cells(v);
                assert(cells[0] == (DocCellView { key: None, node: node@ }));
                assert(cells.skip(1) =~= toml_forest(kids@));
                assert(keyed(k, cells) =~= seq![cell] + cells.skip(1));
                assert(cells_view(out@) =~= cells_view(said).push(cell));
                assert(toml_stacked(before) =~= seq![cell] + toml_stacked(todo@));
                assert(cells_view(out@) + toml_stacked(todo@) =~= cells_view(said)
                    + toml_stacked(before));
            }
        }
    }
    assert(cells_view(out@) =~= all);
    Ok(out)
}

// -- numbers -----------------------------------------------------------------

/// What a JSON number stands for. Integers and floats stay apart, and an
/// integer that does not fit is refused rather than widened.
#[derive(Debug, Clone, Copy, PartialEq, Eq, Structural)]
pub enum JsonNumber {
    Int(i64),
    /// An integer too large that 64 bits without a sign still hold.
    TooLarge,
    /// An integer that 64 bits do not hold.
    Outside,
    Real,
}

/// The digits of a number without its sign.
pub open spec fn unsigned(t: Seq<char>) -> Seq<char> {
    if t.len() > 0 && t[0] == '-' {
        t.skip(1)
    } else {
        t
    }
}

/// A run of digits, with or without a minus in front, is an integer, but for
/// minus zero, which only a float can be.
pub open spec fn json_number(t: Seq<char>) -> JsonNumber {
    let d = unsigned(t);
    let negative = d.len() < t.len();
    if d.len() == 0 || exists|i: int| 0 <= i < d.len() && !is_digit(#[trigger] d[i]) {
        JsonNumber::Real
    } else if negative && digits_value(d) == 0 {
        JsonNumber::Real
    } else if negative {
        if digits_value(d) <= -(i64::MIN as int) {
            JsonNumber::Int((-(digits_value(d) as int)) as i64)
        } else {
            JsonNumber::Outside
        }
    } else if digits_value(d) <= i64::MAX {
        JsonNumber::Int(digits_value(d) as i64)
    } else if digits_value(d) <= u64::MAX {
        JsonNumber::TooLarge
    } else {
        JsonNumber::Outside
    }
}

pub fn json_number_of(t: &Text) -> (r: JsonNumber)
    ensures
        r == json_number(t@),
{
    let negative = t.len() > 0 && t[0] == '-';
    let start: usize = if negative {
        1
    } else {
        0
    };
    let ghost d = unsigned(t@);
    assert(d =~= t@.skip(start as int));
    if t.len() == start {
        return JsonNumber::Real;
    }
    let mut v: u128 = 0;
    let mut over: bool = false;
    let mut i: usize = start;
    assert(d.take(0) =~= Seq::empty());
    while i < t.len()
        invariant
            start <= i <= t.len(),
            start <= 1,
            d == t@.skip(start as int),
            d == unsigned(t@),
            forall|j: int| 0 <= j < i - start ==> is_digit(#[trigger] d[j]),
            over ==> digits_value(d.take(i - start)) > u64::MAX,
            !over ==> v == digits_value(d.take(i - start)) && v <= u64::MAX,
        decreases t.len() - i,
    {
        let c = t[i];
        if !digit(c) {
            assert(!is_digit(d[i - start]));
            assert(json_number(t@) == JsonNumber::Real);
            return JsonNumber::Real;
        }
        let x = c as u32 as u128 - 48;
        proof {
            assert(d.take(i + 1 - start).drop_last() =~= d.take(i - start));
            assert(d.take(i + 1 - start).last() == c);
        }
        if !over {
            v = v * 10 + x;
            if v > u64::MAX as u128 {
                over = true;
            }
        }
        i += 1;
    }
    assert(d.take(i - start) =~= d);
    if over {
        JsonNumber::Outside
    } else if negative && v == 0 {
        JsonNumber::Real
    } else if negative {
        if v > 9_223_372_036_854_775_808 {
            JsonNumber::Outside
        } else {
            JsonNumber::Int((-(v as i128)) as i64)
        }
    } else if v > i64::MAX as u128 {
        JsonNumber::TooLarge
    } else {
        JsonNumber::Int(v as i64)
    }
}

// -- values ------------------------------------------------------------------

/// Where a document comes from.
#[derive(Debug, Clone, Copy, PartialEq, Eq, Structural)]
pub enum Source {
    Json,
    Toml,
}

/// What a value in preorder leads to: the value, and the position after it.
pub type Planted = (HeapView, Result<(Value, usize), Fault>);

impl HeapView {
    /// Refuses a text that cannot be held.
    pub open spec fn doc_text(self, from: Source, t: Seq<char>) -> (HeapView, Option<Fault>) {
        if !t.contains('\0') {
            (self, None)
        } else {
            let (h, r) = self.fail::<Value>(
                match from {
                    Source::Json => nul_complaint(t),
                    Source::Toml => "while parsing TOML: error: "@ + nul_complaint(t),
                },
            );
            (h, Some(r->Err_0))
        }
    }

    /// The value at position `i`. `bits` holds the floats that JSON numbers
    /// stand for, each at its position.
    pub open spec fn plant(
        self,
        from: Source,
        cells: Seq<DocCellView>,
        bits: Seq<u64>,
        i: usize,
        fuel: nat,
    ) -> Planted
        decreases fuel, 0int,
    {
        if fuel == 0 || i >= cells.len() {
            self.fail("internal: document cut short"@)
        } else {
            let next = (i + 1) as usize;
            let inner = (fuel - 1) as nat;
            match cells[i as int].node {
                DocNodeView::Null => (self, Ok((Value::Null, next))),
                DocNodeView::Bool(b) => (self, Ok((Value::Bool(b), next))),
                DocNodeView::Int(n) => (self, Ok((Value::Int(n), next))),
                DocNodeView::Float(x) => (self, Ok((Value::Float(x), next))),
                DocNodeView::Number(t) => match json_number(t) {
                    JsonNumber::Int(n) => (self, Ok((Value::Int(n), next))),
                    JsonNumber::TooLarge => self.fail(
                        "unsigned json number "@ + t + " outside of Nix integer range"@,
                    ),
                    JsonNumber::Outside => self.fail(
                        "json number "@ + t + " outside of Nix integer range"@,
                    ),
                    JsonNumber::Real => {
                        let x: u64 = if i < bits.len() {
                            bits[i as int]
                        } else {
                            0
                        };
                        (self, Ok((Value::Float(x), next)))
                    },
                },
                DocNodeView::Str(t) => match self.doc_text(from, t) {
                    (h, Some(e)) => (h, Err(e)),
                    (h, None) => {
                        let (h, v) = h.str_value(t);
                        (h, Ok((v, next)))
                    },
                },
                DocNodeView::Stamp => self.missing(
                    "builtins.fromTOML timestamps (the parse-toml-timestamps feature does not reach this backend)"@,
                ),
                DocNodeView::Array(n) => self.plant_items(
                    from,
                    cells,
                    bits,
                    next,
                    n,
                    Seq::empty(),
                    inner,
                ),
                DocNodeView::Table(n) => self.plant_entries(
                    from,
                    cells,
                    bits,
                    next,
                    n,
                    Seq::empty(),
                    inner,
                ),
            }
        }
    }

    /// The `n` elements of a list from position `i` on.
    pub open spec fn plant_items(
        self,
        from: Source,
        cells: Seq<DocCellView>,
        bits: Seq<u64>,
        i: usize,
        n: usize,
        out: Seq<usize>,
        fuel: nat,
    ) -> Planted
        decreases fuel, n + 1,
    {
        if n == 0 {
            let (h, v) = self.list_value(out);
            (h, Ok((v, i)))
        } else {
            match self.plant(from, cells, bits, i, fuel) {
                (h, Err(e)) => (h, Err(e)),
                (h, Ok((v, next))) => {
                    let (h, s) = h.value_slot(v);
                    h.plant_items(from, cells, bits, next, (n - 1) as usize, out.push(s), fuel)
                },
            }
        }
    }

    /// The `n` entries of a table from position `i` on.
    pub open spec fn plant_entries(
        self,
        from: Source,
        cells: Seq<DocCellView>,
        bits: Seq<u64>,
        i: usize,
        n: usize,
        out: Seq<(Sym, Slot)>,
        fuel: nat,
    ) -> Planted
        decreases fuel, n + 1,
    {
        if n == 0 {
            let (h, v) = self.attrs_value(out);
            (h, Ok((v, i)))
        } else {
            let key = if i < cells.len() && cells[i as int].key is Some {
                cells[i as int].key->0
            } else {
                Seq::empty()
            };
            match self.doc_text(from, key) {
                (h, Some(e)) => (h, Err(e)),
                (h, None) => {
                    let (h, k) = h.intern(key);
                    match h.plant(from, cells, bits, i, fuel) {
                        (h, Err(e)) => (h, Err(e)),
                        (h, Ok((v, next))) => {
                            let (h, s) = h.value_slot(v);
                            h.plant_entries(
                                from,
                                cells,
                                bits,
                                next,
                                (n - 1) as usize,
                                bind(out, k, s),
                                fuel,
                            )
                        },
                    }
                },
            }
        }
    }

    /// The value of a whole document.
    pub open spec fn planted(self, from: Source, cells: Seq<DocCellView>, bits: Seq<u64>) -> (
        HeapView,
        Result<Value, Fault>,
    ) {
        match self.plant(from, cells, bits, 0, cells.len()) {
            (h, Err(e)) => (h, Err(e)),
            (h, Ok((v, _))) => (h, Ok(v)),
        }
    }
}

impl Heap {
    fn doc_text(&mut self, from: Source, t: &Text) -> (r: Option<Fault>)
        ensures
            old(self)@.doc_text(from, t@) == (final(self)@, r),
    {
        match nul_check(t) {
            None => None,
            Some(msg) => {
                let whole = match from {
                    Source::Json => msg,
                    Source::Toml => {
                        let mut m = text_of("while parsing TOML: error: ");
                        append_all(&mut m, &msg);
                        m
                    },
                };
                match self.fail::<Value>(whole) {
                    Err(e) => Some(e),
                    Ok(_) => None,
                }
            },
        }
    }

    fn plant(&mut self, from: Source, cells: &Vec<DocCell>, bits: &Vec<u64>, i: usize, fuel: usize) -> (r:
        Result<(Value, usize), Fault>)
        ensures
            old(self)@.plant(from, cells_view(cells@), bits@, i, fuel as nat) == (final(self)@, r),
        decreases fuel, 0int,
    {
        if fuel == 0 || i >= cells.len() {
            return self.fail_str("internal: document cut short");
        }
        let next = i + 1;
        let inner = fuel - 1;
        assert(cells_view(cells@)[i as int] == cells@[i as int]@);
        match &cells[i].node {
            DocNode::Null => Ok((Value::Null, next)),
            DocNode::Bool(b) => Ok((Value::Bool(*b), next)),
            DocNode::Int(n) => Ok((Value::Int(*n), next)),
            DocNode::Float(x) => Ok((Value::Float(*x), next)),
            DocNode::Number(t) => {
                let text = text_of(t);
                match json_number_of(&text) {
                    JsonNumber::Int(n) => Ok((Value::Int(n), next)),
                    JsonNumber::Outside => self.fail_with(
                        "json number ",
                        &text,
                        " outside of Nix integer range",
                    ),
                    JsonNumber::TooLarge => self.fail_with(
                        "unsigned json number ",
                        &text,
                        " outside of Nix integer range",
                    ),
                    JsonNumber::Real => {
                        let x: u64 = if i < bits.len() {
                            bits[i]
                        } else {
                            0
                        };
                        Ok((Value::Float(x), next))
                    },
                }
            },
            DocNode::Str(t) => {
                let text = text_of(t);
                match self.doc_text(from, &text) {
                    Some(e) => Err(e),
                    None => Ok((self.str_value(text), next)),
                }
            },
            DocNode::Stamp => self.missing(
                text_of(
                    "builtins.fromTOML timestamps (the parse-toml-timestamps feature does not reach this backend)",
                ),
            ),
            DocNode::Array(n) => self.plant_items(from, cells, bits, next, *n, inner),
            DocNode::Table(n) => self.plant_entries(from, cells, bits, next, *n, inner),
        }
    }

    fn plant_items(
        &mut self,
        from: Source,
        cells: &Vec<DocCell>,
        bits: &Vec<u64>,
        start: usize,
        count: usize,
        fuel: usize,
    ) -> (r: Result<(Value, usize), Fault>)
        ensures
            old(self)@.plant_items(
                from,
                cells_view(cells@),
                bits@,
                start,
                count,
                Seq::empty(),
                fuel as nat,
            ) == (final(self)@, r),
        decreases fuel, 1int,
    {
        let mut out: Vec<usize> = Vec::new();
        let mut i: usize = start;
        let mut n: usize = count;
        while n > 0
            invariant
                self@.plant_items(from, cells_view(cells@), bits@, i, n, out@, fuel as nat)
                    == old(self)@.plant_items(
                    from,
                    cells_view(cells@),
                    bits@,
                    start,
                    count,
                    Seq::empty(),
                    fuel as nat,
                ),
            decreases n,
        {
            match self.plant(from, cells, bits, i, fuel) {
                Err(e) => return Err(e),
                Ok((v, next)) => {
                    let s = self.value_slot(v);
                    out.push(s);
                    i = next;
                    n -= 1;
                },
            }
        }
        Ok((self.list_value(out), i))
    }

    fn plant_entries(
        &mut self,
        from: Source,
        cells: &Vec<DocCell>,
        bits: &Vec<u64>,
        start: usize,
        count: usize,
        fuel: usize,
    ) -> (r: Result<(Value, usize), Fault>)
        ensures
            old(self)@.plant_entries(
                from,
                cells_view(cells@),
                bits@,
                start,
                count,
                Seq::empty(),
                fuel as nat,
            ) == (final(self)@, r),
        decreases fuel, 1int,
    {
        let mut out: Vec<(Sym, Slot)> = Vec::new();
        let mut i: usize = start;
        let mut n: usize = count;
        while n > 0
            invariant
                self@.plant_entries(from, cells_view(cells@), bits@, i, n, out@, fuel as nat)
                    == old(self)@.plant_entries(
                    from,
                    cells_view(cells@),
                    bits@,
                    start,
                    count,
                    Seq::empty(),
                    fuel as nat,
                ),
            decreases n,
        {
            let key = key_of(cells, i);
            match self.doc_text(from, &key) {
                Some(e) => return Err(e),
                None => {},
            }
            let k = self.intern(&key);
            match self.plant(from, cells, bits, i, fuel) {
                Err(e) => return Err(e),
                Ok((v, next)) => {
                    let s = self.value_slot(v);
                    set_bind(&mut out, k, s);
                    i = next;
                    n -= 1;
                },
            }
        }
        Ok((self.attrs_value(out), i))
    }

    pub fn planted(&mut self, from: Source, cells: &Vec<DocCell>, bits: &Vec<u64>) -> (r: Result<
        Value,
        Fault,
    >)
        ensures
            old(self)@.planted(from, cells_view(cells@), bits@) == (final(self)@, r),
    {
        match self.plant(from, cells, bits, 0, cells.len()) {
            Err(e) => Err(e),
            Ok((v, _)) => Ok(v),
        }
    }
}

/// The key at a position.
fn key_of(cells: &Vec<DocCell>, i: usize) -> (k: Text)
    ensures
        k@ == (if i < cells@.len() && cells_view(cells@)[i as int].key is Some {
            cells_view(cells@)[i as int].key->0
        } else {
            Seq::empty()
        }),
{
    if i < cells.len() {
        if let Some(k) = &cells[i].key {
            return text_of(k);
        }
    }
    Vec::new()
}

} // verus!
