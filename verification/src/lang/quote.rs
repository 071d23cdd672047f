//! Quoting strings for output, planning replacements, and byte positions in
//! text.
use crate::lang::heap::contents;
use crate::lang::strings::{code, is_digit, digit, is_text, slice_of};
use crate::text::{append_str, copy_of, hex_digit, text_of, Text};
use vstd::prelude::*;

verus! {

// -- printed strings ---------------------------------------------------------

/// The printed form of the character at `i`: backslash, quote, newline,
/// carriage return and tab are escaped, and so is a dollar sign before an
/// opening brace.
pub open spec fn printed_at(t: Seq<char>, i: int) -> Seq<char> {
    let c = t[i];
    if c == '"' {
        "\\\""@
    } else if c == '\\' {
        "\\\\"@
    } else if c == '\n' {
        "\\n"@
    } else if c == '\r' {
        "\\r"@
    } else if c == '\t' {
        "\\t"@
    } else if c == '$' && i + 1 < t.len() && t[i + 1] == '{' {
        "\\$"@
    } else {
        seq![c]
    }
}

pub open spec fn printed_upto(t: Seq<char>, n: int) -> Seq<char>
    decreases n,
{
    if n <= 0 {
        Seq::empty()
    } else {
        printed_upto(t, n - 1) + printed_at(t, n - 1)
    }
}

/// A string as it is printed.
pub open spec fn printed(t: Seq<char>) -> Seq<char> {
    "\""@ + printed_upto(t, t.len() as int) + "\""@
}

/// Quotes a string for printing.
pub fn print_string(t: &Text) -> (r: Text)
    ensures
        r@ == printed(t@),
{
    let mut out = text_of("\"");
    let mut i: usize = 0;
    while i < t.len()
        invariant
            i <= t.len(),
            out@ == "\""@ + printed_upto(t@, i as int),
        decreases t.len() - i,
    {
        let c = t[i];
        if c == '"' {
            append_str(&mut out, "\\\"");
        } else if c == '\\' {
            append_str(&mut out, "\\\\");
        } else if c == '\n' {
            append_str(&mut out, "\\n");
        } else if c == '\r' {
            append_str(&mut out, "\\r");
        } else if c == '\t' {
            append_str(&mut out, "\\t");
        } else if c == '$' && i + 1 < t.len() && t[i + 1] == '{' {
            append_str(&mut out, "\\$");
        } else {
            out.push(c);
        }
        assert(out@ == "\""@ + printed_upto(t@, i + 1));
        i += 1;
    }
    append_str(&mut out, "\"");
    out
}

pub open spec fn is_letter(c: char) -> bool {
    (65 <= c as int && c as int <= 90) || (97 <= c as int && c as int <= 122)
}

pub open spec fn is_name_char(c: char) -> bool {
    is_letter(c) || is_digit(c) || c == '_' || c == '\'' || c == '-'
}

pub open spec fn is_keyword(t: Seq<char>) -> bool {
    t == "if"@ || t == "then"@ || t == "else"@ || t == "assert"@ || t == "with"@ || t == "let"@
        || t == "in"@ || t == "rec"@ || t == "inherit"@ || t == "or"@
}

/// Whether a name reads back as one identifier.
pub open spec fn is_identifier(t: Seq<char>) -> bool {
    &&& t.len() > 0
    &&& is_letter(t[0]) || t[0] == '_'
    &&& forall|i: int| 0 <= i < t.len() ==> is_name_char(#[trigger] t[i])
    &&& !is_keyword(t)
}

fn letter(c: char) -> (r: bool)
    ensures
        r == is_letter(c),
{
    let n = code(c);
    (65 <= n && n <= 90) || (97 <= n && n <= 122)
}

fn identifier(t: &Text) -> (r: bool)
    ensures
        r == is_identifier(t@),
{
    if t.len() == 0 || !(letter(t[0]) || t[0] == '_') {
        return false;
    }
    let mut i: usize = 0;
    while i < t.len()
        invariant
            i <= t.len(),
            forall|j: int| 0 <= j < i ==> is_name_char(#[trigger] t@[j]),
        decreases t.len() - i,
    {
        let c = t[i];
        if !(letter(c) || digit(c) || c == '_' || c == '\'' || c == '-') {
            assert(!is_name_char(t@[i as int]));
            return false;
        }
        i += 1;
    }
    !(is_text(t, "if") || is_text(t, "then") || is_text(t, "else") || is_text(t, "assert")
        || is_text(t, "with") || is_text(t, "let") || is_text(t, "in") || is_text(t, "rec")
        || is_text(t, "inherit") || is_text(t, "or"))
}

/// An attribute name as it is printed: bare where it is an identifier,
/// quoted otherwise.
pub open spec fn printed_name(t: Seq<char>) -> Seq<char> {
    if is_identifier(t) {
        t
    } else {
        printed(t)
    }
}

/// Prints an attribute name.
pub fn print_attr_name(t: &Text) -> (r: Text)
    ensures
        r@ == printed_name(t@),
{
    if identifier(t) {
        copy_of(t)
    } else {
        print_string(t)
    }
}

// -- JSON strings ------------------------------------------------------------

/// The JSON form of a character: the seven named escapes, four hexadecimal
/// digits for the remaining control characters, everything else verbatim.
pub open spec fn json_char(c: char) -> Seq<char> {
    if c == '"' {
        "\\\""@
    } else if c == '\\' {
        "\\\\"@
    } else if c == '\u{8}' {
        "\\b"@
    } else if c == '\u{c}' {
        "\\f"@
    } else if c == '\n' {
        "\\n"@
    } else if c == '\r' {
        "\\r"@
    } else if c == '\t' {
        "\\t"@
    } else if (c as int) < 32 {
        "\\u00"@ + seq![hex_digit(c as int / 16), hex_digit(c as int % 16)]
    } else {
        seq![c]
    }
}

pub open spec fn json_chars(t: Seq<char>) -> Seq<char>
    decreases t.len(),
{
    if t.len() == 0 {
        Seq::empty()
    } else {
        json_chars(t.drop_last()) + json_char(t.last())
    }
}

/// A string as JSON.
pub open spec fn json_quoted(t: Seq<char>) -> Seq<char> {
    "\""@ + json_chars(t) + "\""@
}

fn hex_char(n: u32) -> (c: char)
    requires
        n < 16,
    ensures
        c == hex_digit(n as int),
{
    let d: u8 = n as u8;
    if d < 10 {
        (d + 48) as char
    } else {
        (d + 87) as char
    }
}

/// Quotes a string for JSON.
pub fn json_string(t: &Text) -> (r: Text)
    ensures
        r@ == json_quoted(t@),
{
    let mut out = text_of("\"");
    let mut i: usize = 0;
    while i < t.len()
        invariant
            i <= t.len(),
            out@ == "\""@ + json_chars(t@.take(i as int)),
        decreases t.len() - i,
    {
        let c = t[i];
        proof {
            assert(t@.take(i + 1).drop_last() == t@.take(i as int));
            assert(t@.take(i + 1).last() == c);
        }
        let ghost before = out@;
        if c == '"' {
            append_str(&mut out, "\\\"");
        } else if c == '\\' {
            append_str(&mut out, "\\\\");
        } else if c == '\u{8}' {
            append_str(&mut out, "\\b");
        } else if c == '\u{c}' {
            append_str(&mut out, "\\f");
        } else if c == '\n' {
            append_str(&mut out, "\\n");
        } else if c == '\r' {
            append_str(&mut out, "\\r");
        } else if c == '\t' {
            append_str(&mut out, "\\t");
        } else {
            let n = code(c);
            if n < 32 {
                append_str(&mut out, "\\u00");
                out.push(hex_char(n / 16));
                out.push(hex_char(n % 16));
                assert(out@ =~= before + json_char(c));
            } else {
                out.push(c);
                assert(out@ =~= before + json_char(c));
            }
        }
        assert(out@ == before + json_char(c));
        assert(out@ == "\""@ + json_chars(t@.take(i + 1)));
        i += 1;
    }
    assert(t@.take(t.len() as int) == t@);
    append_str(&mut out, "\"");
    out
}

// -- replacement plans -------------------------------------------------------

/// One literal run or one replacement index. Planning the substitution before
/// any replacement is forced is what keeps unused replacements lazy.
pub enum Piece {
    Lit(Text),
    Use(usize),
}

/// The model of [`Piece`].
pub enum PieceView {
    Lit(Seq<char>),
    Use(usize),
}

impl View for Piece {
    type V = PieceView;

    open spec fn view(&self) -> PieceView {
        match self {
            Piece::Lit(t) => PieceView::Lit(t@),
            Piece::Use(j) => PieceView::Use(*j),
        }
    }
}

pub open spec fn plan_view(plan: Seq<Piece>) -> Seq<PieceView> {
    Seq::new(plan.len(), |i: int| plan[i]@)
}

/// Whether `f` stands in `s` at position `i`.
pub open spec fn stands_at(s: Seq<char>, f: Seq<char>, i: int) -> bool {
    i + f.len() <= s.len() && s.subrange(i, i + f.len()) == f
}

/// The first pattern, from `j` on, that stands in `s` at `i`.
pub open spec fn hit(froms: Seq<Seq<char>>, s: Seq<char>, i: int, j: int) -> Option<int>
    decreases froms.len() - j,
{
    if j >= froms.len() {
        None
    } else if stands_at(s, froms[j], i) {
        Some(j)
    } else {
        hit(froms, s, i, j + 1)
    }
}

pub proof fn lemma_hit(froms: Seq<Seq<char>>, s: Seq<char>, i: int, j: int)
    requires
        0 <= j,
    ensures
        hit(froms, s, i, j) matches Some(k) ==> j <= k < froms.len() && stands_at(s, froms[k], i),
    decreases froms.len() - j,
{
    if j < froms.len() && !stands_at(s, froms[j], i) {
        lemma_hit(froms, s, i, j + 1);
    }
}

/// A literal run closed off, if there is one.
pub open spec fn closed_run(out: Seq<PieceView>, lit: Seq<char>) -> Seq<PieceView> {
    if lit.len() > 0 {
        out.push(PieceView::Lit(lit))
    } else {
        out
    }
}

/// The plan from position `i` on: at each position the first pattern that
/// matches is used; an empty pattern matches everywhere and lets one
/// character through.
pub open spec fn plan_from(
    froms: Seq<Seq<char>>,
    s: Seq<char>,
    i: int,
    lit: Seq<char>,
    out: Seq<PieceView>,
) -> Seq<PieceView>
    decreases s.len() + 1 - i,
{
    if i > s.len() {
        closed_run(out, lit)
    } else {
        match hit(froms, s, i, 0) {
            Some(j) => {
                proof {
                    lemma_hit(froms, s, i, 0);
                }
                let out1 = closed_run(out, lit).push(PieceView::Use(j as usize));
                if froms[j].len() > 0 {
                    plan_from(froms, s, i + froms[j].len(), Seq::empty(), out1)
                } else if i < s.len() {
                    plan_from(froms, s, i + 1, seq![s[i]], out1)
                } else {
                    plan_from(froms, s, i + 1, Seq::empty(), out1)
                }
            },
            None => if i < s.len() {
                plan_from(froms, s, i + 1, lit.push(s[i]), out)
            } else {
                closed_run(out, lit)
            },
        }
    }
}

fn text_stands_at(s: &Text, f: &Text, i: usize) -> (r: bool)
    requires
        i <= s.len(),
    ensures
        r == stands_at(s@, f@, i as int),
{
    if f.len() > s.len() - i {
        return false;
    }
    let mut k: usize = 0;
    while k < f.len()
        invariant
            k <= f.len(),
            i + f.len() <= s.len(),
            forall|j: int| 0 <= j < k ==> s@[i + j] == #[trigger] f@[j],
        decreases f.len() - k,
    {
        if s[i + k] != f[k] {
            assert(s@.subrange(i as int, i + f.len())[k as int] != f@[k as int]);
            return false;
        }
        k += 1;
    }
    assert(s@.subrange(i as int, i + f.len()) =~= f@);
    true
}

fn find_hit(froms: &Vec<Text>, s: &Text, i: usize) -> (r: Option<usize>)
    requires
        i <= s.len(),
    ensures
        match r {
            Some(j) => hit(contents(froms@), s@, i as int, 0) == Some(j as int) && j < froms.len()
                && stands_at(s@, froms@[j as int]@, i as int),
            None => hit(contents(froms@), s@, i as int, 0) is None,
        },
{
    let mut j: usize = 0;
    while j < froms.len()
        invariant
            i <= s.len(),
            j <= froms.len(),
            hit(contents(froms@), s@, i as int, j as int) == hit(contents(froms@), s@, i as int, 0),
        decreases froms.len() - j,
    {
        if text_stands_at(s, &froms[j], i) {
            return Some(j);
        }
        j += 1;
    }
    None
}

fn close_run(out: &mut Vec<Piece>, lit: &Text)
    ensures
        plan_view(final(out)@) == closed_run(plan_view(old(out)@), lit@),
{
    if lit.len() > 0 {
        out.push(Piece::Lit(copy_of(lit)));
        assert(plan_view(out@) =~= plan_view(old(out)@).push(PieceView::Lit(lit@)));
    }
}

/// Plans a replacement.
pub fn build_plan(froms: &Vec<Text>, s: &Text) -> (r: Vec<Piece>)
    ensures
        plan_view(r@) == plan_from(contents(froms@), s@, 0, Seq::empty(), Seq::empty()),
{
    let ghost fs = contents(froms@);
    let ghost goal = plan_from(fs, s@, 0, Seq::empty(), Seq::empty());
    let mut out: Vec<Piece> = Vec::new();
    let mut lit: Text = Vec::new();
    let mut i: usize = 0;
    let mut done: bool = false;
    assert(plan_view(out@) =~= Seq::empty());
    while !done
        invariant
            fs == contents(froms@),
            i <= s.len(),
            goal == plan_from(fs, s@, 0, Seq::empty(), Seq::empty()),
            !done ==> goal == plan_from(fs, s@, i as int, lit@, plan_view(out@)),
            done ==> goal == plan_view(out@),
        decreases
            s.len() - i,
            (if done {
                0int
            } else {
                1int
            }),
    {
        match find_hit(froms, s, i) {
            Some(j) => {
                close_run(&mut out, &lit);
                let ghost before = plan_view(out@);
                out.push(Piece::Use(j));
                assert(plan_view(out@) =~= before.push(PieceView::Use(j)));
                assert(fs[j as int] == froms@[j as int]@);
                lit = Vec::new();
                if froms[j].len() > 0 {
                    i += froms[j].len();
                    assert(lit@ =~= Seq::<char>::empty());
                } else if i < s.len() {
                    lit.push(s[i]);
                    assert(lit@ =~= seq![s@[i as int]]);
                    i += 1;
                } else {
                    assert(lit@ =~= Seq::<char>::empty());
                    assert(plan_from(fs, s@, i + 1, Seq::empty(), plan_view(out@)) == plan_view(
                        out@,
                    ));
                    done = true;
                }
            },
            None => if i < s.len() {
                lit.push(s[i]);
                i += 1;
            } else {
                close_run(&mut out, &lit);
                done = true;
            },
        }
    }
    out
}

/// The replacement indices a plan uses, each once, in order of first use.
pub open spec fn uses(plan: Seq<PieceView>) -> Seq<usize>
    decreases plan.len(),
{
    if plan.len() == 0 {
        Seq::empty()
    } else {
        let u = uses(plan.drop_last());
        match plan.last() {
            PieceView::Use(j) => if u.contains(j) {
                u
            } else {
                u.push(j)
            },
            _ => u,
        }
    }
}

fn has_index(v: &Vec<usize>, x: usize) -> (r: bool)
    ensures
        r == v@.contains(x),
{
    let mut i: usize = 0;
    while i < v.len()
        invariant
            i <= v.len(),
            forall|j: int| 0 <= j < i ==> v@[j] != x,
        decreases v.len() - i,
    {
        if v[i] == x {
            assert(v@[i as int] == x);
            return true;
        }
        i += 1;
    }
    false
}

/// The replacement indices a plan uses, each once, in order of first use.
pub fn distinct_uses(plan: &Vec<Piece>) -> (r: Vec<usize>)
    ensures
        r@ == uses(plan_view(plan@)),
{
    let mut out: Vec<usize> = Vec::new();
    let mut i: usize = 0;
    while i < plan.len()
        invariant
            i <= plan.len(),
            out@ == uses(plan_view(plan@).take(i as int)),
        decreases plan.len() - i,
    {
        let ghost all = plan_view(plan@);
        proof {
            assert(all.take(i + 1).drop_last() == all.take(i as int));
            assert(all.take(i + 1).last() == plan@[i as int]@);
        }
        match &plan[i] {
            Piece::Use(j) => {
                if !has_index(&out, *j) {
                    out.push(*j);
                }
            },
            Piece::Lit(_) => {},
        }
        i += 1;
    }
    assert(plan_view(plan@).take(plan.len() as int) == plan_view(plan@));
    out
}

// -- byte positions ----------------------------------------------------------

/// How many bytes a character takes in UTF-8.
pub open spec fn char_width(c: char) -> int {
    if (c as int) < 0x80 {
        1
    } else if (c as int) < 0x800 {
        2
    } else if (c as int) < 0x1_0000 {
        3
    } else {
        4
    }
}

/// How many bytes the first `n` characters take in UTF-8.
pub open spec fn bytes_upto(t: Seq<char>, n: int) -> int
    decreases n,
{
    if n <= 0 {
        0
    } else {
        bytes_upto(t, n - 1) + char_width(t[n - 1])
    }
}

/// How many bytes a text takes in UTF-8.
pub open spec fn byte_len(t: Seq<char>) -> int {
    bytes_upto(t, t.len() as int)
}

/// The number of characters before byte `b`, where a character starts there
/// or the text ends there.
pub open spec fn char_index(t: Seq<char>, b: int, i: int) -> Option<int>
    decreases t.len() - i,
{
    if bytes_upto(t, i) == b {
        Some(i)
    } else if i >= t.len() || bytes_upto(t, i) > b {
        None
    } else {
        char_index(t, b, i + 1)
    }
}

/// The text between two byte positions; empty where either falls inside a
/// character or past the end.
pub open spec fn byte_slice(t: Seq<char>, from: int, to: int) -> Seq<char> {
    match (char_index(t, from, 0), char_index(t, to, 0)) {
        (Some(i), Some(j)) => if i <= j {
            t.subrange(i, j)
        } else {
            Seq::empty()
        },
        _ => Seq::empty(),
    }
}

fn width_of(c: char) -> (r: u64)
    ensures
        r == char_width(c),
        1 <= r <= 4,
{
    let n = code(c);
    if n < 0x80 {
        1
    } else if n < 0x800 {
        2
    } else if n < 0x1_0000 {
        3
    } else {
        4
    }
}

proof fn lemma_bytes_bound(t: Seq<char>, n: int)
    requires
        0 <= n,
    ensures
        n <= bytes_upto(t, n) <= 4 * n,
    decreases n,
{
    if n > 0 {
        lemma_bytes_bound(t, n - 1);
    }
}

/// How many bytes a text takes in UTF-8.
pub fn byte_len_of(t: &Text) -> (r: u128)
    ensures
        r == byte_len(t@),
{
    let mut n: u128 = 0;
    let mut i: usize = 0;
    while i < t.len()
        invariant
            i <= t.len(),
            n == bytes_upto(t@, i as int),
            n <= 4 * i,
        decreases t.len() - i,
    {
        n += width_of(t[i]) as u128;
        i += 1;
    }
    n
}

fn find_char_index(t: &Text, b: u128) -> (r: Option<usize>)
    ensures
        match r {
            Some(i) => char_index(t@, b as int, 0) == Some(i as int) && i <= t.len(),
            None => char_index(t@, b as int, 0) is None,
        },
{
    let mut n: u128 = 0;
    let mut i: usize = 0;
    while i < t.len() && n < b
        invariant
            i <= t.len(),
            n == bytes_upto(t@, i as int),
            n <= 4 * i,
            char_index(t@, b as int, i as int) == char_index(t@, b as int, 0),
        decreases t.len() - i,
    {
        n += width_of(t[i]) as u128;
        i += 1;
    }
    if n == b {
        Some(i)
    } else {
        None
    }
}

/// The text between two byte positions.
pub fn byte_slice_of(t: &Text, from: u128, to: u128) -> (r: Text)
    ensures
        r@ == byte_slice(t@, from as int, to as int),
{
    match (find_char_index(t, from), find_char_index(t, to)) {
        (Some(i), Some(j)) => if i <= j {
            slice_of(t, i, j)
        } else {
            Vec::new()
        },
        _ => Vec::new(),
    }
}

/// The text between two byte positions, where both fall between characters.
pub open spec fn byte_cut(t: Seq<char>, from: int, to: int) -> Option<Seq<char>> {
    match (char_index(t, from, 0), char_index(t, to, 0)) {
        (Some(i), Some(j)) => if i <= j {
            Some(t.subrange(i, j))
        } else {
            None
        },
        _ => None,
    }
}

pub fn byte_cut_of(t: &Text, from: u128, to: u128) -> (r: Option<Text>)
    ensures
        match r {
            Some(c) => byte_cut(t@, from as int, to as int) == Some(c@),
            None => byte_cut(t@, from as int, to as int) is None,
        },
{
    match (find_char_index(t, from), find_char_index(t, to)) {
        (Some(i), Some(j)) => if i <= j {
            Some(slice_of(t, i, j))
        } else {
            None
        },
        _ => None,
    }
}

} // verus!
