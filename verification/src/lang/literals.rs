//! The numbers of a JSON text as they were written.
//!
//! A parsed document holds an integer of more than 64 bits as a float. What was
//! written is found by numbering: the text is parsed again with each number
//! replaced by its position among the numbers, which says of every number in the
//! document where its digits stand.
use crate::lang::docs::{
    cells_view, doc_view, json_document, json_number, json_number_of, read_json, DocCell,
    DocCellView, DocNode, DocNodeView, JsonNumber,
};
use crate::lang::heap::contents;
use crate::lang::strings::{digit, is_digit};
use crate::text::{append_int, copy_of, int_text, string_of, text_of, Text};
use vstd::prelude::*;

verus! {

/// Where in a JSON text a character stands.
#[derive(Debug, Clone, Copy, PartialEq, Eq, Structural)]
pub enum Place {
    Plain,
    Quoted,
    /// Behind a backslash.
    Escaped,
    Number,
}

/// A JSON text being read: the text with its numbers numbered, the numbers, and
/// the number under way.
#[verifier::ext_equal]
pub struct Scan {
    pub place: Place,
    pub out: Seq<char>,
    pub literals: Seq<Seq<char>>,
    pub cur: Seq<char>,
}

/// Whether a number starts with a character.
pub open spec fn starts_number(c: char) -> bool {
    c == '-' || is_digit(c)
}

/// Whether a character goes on with a number.
pub open spec fn in_number(c: char) -> bool {
    starts_number(c) || c == '+' || c == '.' || c == 'e' || c == 'E'
}

/// The number under way, if there is one, is at its end.
pub open spec fn number_done(s: Scan) -> Scan {
    if s.place == Place::Number {
        Scan {
            place: Place::Plain,
            out: s.out + int_text(s.literals.len() as int),
            literals: s.literals.push(s.cur),
            cur: Seq::empty(),
        }
    } else {
        s
    }
}

/// One character further.
pub open spec fn scan_step(s: Scan, c: char) -> Scan {
    if s.place == Place::Quoted {
        let place = if c == '"' {
            Place::Plain
        } else if c == '\\' {
            Place::Escaped
        } else {
            Place::Quoted
        };
        Scan { place, out: s.out.push(c), ..s }
    } else if s.place == Place::Escaped {
        Scan { place: Place::Quoted, out: s.out.push(c), ..s }
    } else if s.place == Place::Number && in_number(c) {
        Scan { cur: s.cur.push(c), ..s }
    } else {
        let s = number_done(s);
        if starts_number(c) {
            Scan { place: Place::Number, cur: seq![c], ..s }
        } else if c == '"' {
            Scan { place: Place::Quoted, out: s.out.push(c), ..s }
        } else {
            Scan { out: s.out.push(c), ..s }
        }
    }
}

pub open spec fn scanned(t: Seq<char>) -> Scan
    decreases t.len(),
{
    if t.len() == 0 {
        Scan {
            place: Place::Plain,
            out: Seq::empty(),
            literals: Seq::empty(),
            cur: Seq::empty(),
        }
    } else {
        scan_step(scanned(t.drop_last()), t.last())
    }
}

/// A JSON text with each number replaced by its position.
pub open spec fn numbered(t: Seq<char>) -> Seq<char> {
    number_done(scanned(t)).out
}

/// The numbers of a JSON text, as they were written.
pub open spec fn literals(t: Seq<char>) -> Seq<Seq<char>> {
    number_done(scanned(t)).literals
}

fn number_text(t: &Text) -> (r: (Text, Vec<Text>))
    ensures
        r.0@ == numbered(t@),
        contents(r.1@) == literals(t@),
{
    let mut place = Place::Plain;
    let mut out: Text = Vec::new();
    let mut found: Vec<Text> = Vec::new();
    let mut cur: Text = Vec::new();
    let mut i: usize = 0;
    assert(contents(found@) =~= Seq::empty());
    while i < t.len()
        invariant
            i <= t.len(),
            scanned(t@.take(i as int)) == (Scan {
                place,
                out: out@,
                literals: contents(found@),
                cur: cur@,
            }),
        decreases t.len() - i,
    {
        let c = t[i];
        let ghost was = scanned(t@.take(i as int));
        let ghost before = contents(found@);
        proof {
            assert(t@.take(i + 1).drop_last() =~= t@.take(i as int));
            assert(t@.take(i + 1).last() == c);
        }
        let starts = c == '-' || digit(c);
        if place == Place::Quoted {
            if c == '"' {
                place = Place::Plain;
            } else if c == '\\' {
                place = Place::Escaped;
            }
            out.push(c);
        } else if place == Place::Escaped {
            place = Place::Quoted;
            out.push(c);
        } else if place == Place::Number && (starts || c == '+' || c == '.' || c == 'e' || c
            == 'E') {
            cur.push(c);
        } else {
            if place == Place::Number {
                append_int(&mut out, found.len() as i128);
                found.push(copy_of(&cur));
                assert(contents(found@) =~= before.push(cur@));
                cur = Vec::new();
                place = Place::Plain;
            }
            assert(number_done(was) =~= (Scan {
                place,
                out: out@,
                literals: contents(found@),
                cur: cur@,
            }));
            if starts {
                cur = Vec::new();
                cur.push(c);
                assert(cur@ =~= seq![c]);
                place = Place::Number;
            } else {
                if c == '"' {
                    place = Place::Quoted;
                }
                out.push(c);
            }
        }
        assert(scan_step(was, c) =~= (Scan {
            place,
            out: out@,
            literals: contents(found@),
            cur: cur@,
        }));
        i += 1;
    }
    assert(t@.take(t.len() as int) =~= t@);
    if place == Place::Number {
        let ghost before = contents(found@);
        append_int(&mut out, found.len() as i128);
        found.push(copy_of(&cur));
        assert(contents(found@) =~= before.push(cur@));
    }
    (out, found)
}

/// The digits of an integer that 64 bits do not hold, where a cell of the
/// numbered document leads to one.
pub open spec fn wide_integer(cell: DocCellView, found: Seq<Seq<char>>) -> Option<Seq<char>> {
    match cell.node {
        DocNodeView::Number(k) => match json_number(k) {
            JsonNumber::Int(n) => if 0 <= n < found.len() && json_number(found[n as int])
                == JsonNumber::Outside {
                Some(found[n as int])
            } else {
                None
            },
            _ => None,
        },
        _ => None,
    }
}

/// A cell with the digits of an integer that 64 bits do not hold.
pub open spec fn with_digits(
    cell: DocCellView,
    numbered_cell: DocCellView,
    found: Seq<Seq<char>>,
) -> DocCellView {
    match wide_integer(numbered_cell, found) {
        Some(t) => DocCellView { node: DocNodeView::Number(t), ..cell },
        None => cell,
    }
}

/// A JSON document in preorder in which integers that 64 bits do not hold stand
/// as they were written.
pub open spec fn exact_json(src: Seq<char>) -> Result<Seq<DocCellView>, Seq<char>> {
    match (json_document(src), json_document(numbered(src))) {
        (Ok(cells), Ok(places)) => if cells.len() == places.len() {
            Ok(
                Seq::new(
                    cells.len(),
                    |i: int| with_digits(cells[i], places[i], literals(src)),
                ),
            )
        } else {
            Ok(cells)
        },
        (read, _) => read,
    }
}

fn digits_of(cell: &DocCell, found: &Vec<Text>) -> (r: Option<String>)
    ensures
        match r {
            Some(t) => wide_integer(cell@, contents(found@)) == Some(t@),
            None => wide_integer(cell@, contents(found@)) is None,
        },
{
    if let DocNode::Number(k) = &cell.node {
        if let JsonNumber::Int(n) = json_number_of(&text_of(k)) {
            if n >= 0 && (n as u64) < found.len() as u64 {
                let t = &found[n as usize];
                assert(contents(found@)[n as int] == t@);
                if json_number_of(t) == JsonNumber::Outside {
                    return Some(string_of(t));
                }
            }
        }
    }
    None
}

/// A JSON document in preorder in which integers that 64 bits do not hold stand
/// as they were written.
pub fn read_exact_json(src: &str) -> (r: Result<Vec<DocCell>, String>)
    ensures
        doc_view(r) == exact_json(src@),
{
    let mut cells = match read_json(src) {
        Err(e) => return Err(e),
        Ok(cells) => cells,
    };
    let (places, found) = number_text(&text_of(src));
    let places = match read_json(string_of(&places).as_str()) {
        Err(_) => return Ok(cells),
        Ok(places) => places,
    };
    if cells.len() != places.len() {
        return Ok(cells);
    }
    let ghost read = cells_view(cells@);
    let ghost all = exact_json(src@)->Ok_0;
    let mut i: usize = 0;
    while i < cells.len()
        invariant
            i <= cells.len(),
            cells.len() == places.len(),
            read.len() == cells.len(),
            all.len() == cells.len(),
            contents(found@) == literals(src@),
            forall|j: int|
                0 <= j < cells.len() ==> #[trigger] all[j] == with_digits(
                    read[j],
                    cells_view(places@)[j],
                    literals(src@),
                ),
            forall|j: int| 0 <= j < i ==> #[trigger] cells_view(cells@)[j] == all[j],
            forall|j: int| i <= j < cells.len() ==> #[trigger] cells_view(cells@)[j] == read[j],
        decreases cells.len() - i,
    {
        let ghost was = cells_view(cells@);
        assert(was[i as int] == read[i as int]);
        assert(cells_view(places@)[i as int] == places@[i as int]@);
        if let Some(t) = digits_of(&places[i], &found) {
            cells[i].node = DocNode::Number(t);
        }
        assert(all[i as int] == with_digits(
            read[i as int],
            cells_view(places@)[i as int],
            literals(src@),
        ));
        assert(cells_view(cells@)[i as int] == all[i as int]);
        assert forall|j: int| 0 <= j < cells.len() && j != i implies #[trigger] cells_view(
            cells@,
        )[j] == was[j] by {}
        i += 1;
    }
    assert(cells_view(cells@) =~= all);
    Ok(cells)
}

} // verus!
