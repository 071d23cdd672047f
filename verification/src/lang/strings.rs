//! The text rules of the language: paths, versions, replacement plans, and
//! the two ways of quoting a string.
use crate::lang::heap::{contents, same_text};
use crate::text::{append_all, append_str, copy_of, string_of, text_of, Text};
use vstd::prelude::*;

verus! {

// -- order -------------------------------------------------------------------

/// One of three outcomes of a comparison.
#[derive(Debug, Clone, Copy, PartialEq, Eq, Structural)]
pub enum Order {
    Less,
    Equal,
    Greater,
}

/// Code point order from position `i` on; a proper prefix comes first.
pub open spec fn text_order_from(a: Seq<char>, b: Seq<char>, i: int) -> Order
    decreases a.len() - i,
{
    if i >= a.len() && i >= b.len() {
        Order::Equal
    } else if i >= a.len() {
        Order::Less
    } else if i >= b.len() {
        Order::Greater
    } else if (a[i] as int) < (b[i] as int) {
        Order::Less
    } else if (a[i] as int) > (b[i] as int) {
        Order::Greater
    } else {
        text_order_from(a, b, i + 1)
    }
}

/// Lexicographic order by code point, which is also the order of the UTF-8
/// bytes.
pub open spec fn text_order(a: Seq<char>, b: Seq<char>) -> Order {
    text_order_from(a, b, 0)
}

/// The code point of a character.
pub fn code(c: char) -> (r: u32)
    ensures
        r as int == c as int,
{
    c as u32
}

pub fn order_texts(a: &Text, b: &Text) -> (r: Order)
    ensures
        r == text_order(a@, b@),
{
    let mut i: usize = 0;
    while i < a.len() && i < b.len()
        invariant
            i <= a.len(),
            i <= b.len(),
            text_order_from(a@, b@, i as int) == text_order(a@, b@),
        decreases a.len() - i,
    {
        let x = code(a[i]);
        let y = code(b[i]);
        if x < y {
            return Order::Less;
        }
        if x > y {
            return Order::Greater;
        }
        i += 1;
    }
    if i < b.len() {
        Order::Less
    } else if i < a.len() {
        Order::Greater
    } else {
        Order::Equal
    }
}

// -- paths -------------------------------------------------------------------

/// The pieces between slashes.
pub open spec fn pieces(t: Seq<char>) -> Seq<Seq<char>>
    decreases t.len(),
{
    if t.len() == 0 {
        seq![Seq::empty()]
    } else {
        let rest = pieces(t.drop_last());
        if t.last() == '/' {
            rest.push(Seq::empty())
        } else {
            rest.update(rest.len() - 1, rest.last().push(t.last()))
        }
    }
}

/// Path components after "." and ".." have been taken into account.
pub open spec fn resolved(segs: Seq<Seq<char>>) -> Seq<Seq<char>>
    decreases segs.len(),
{
    if segs.len() == 0 {
        Seq::empty()
    } else {
        let out = resolved(segs.drop_last());
        let s = segs.last();
        if s == ""@ || s == "."@ {
            out
        } else if s == ".."@ {
            if out.len() > 0 {
                out.drop_last()
            } else {
                out
            }
        } else {
            out.push(s)
        }
    }
}

/// Texts one after the other with a separator between.
pub open spec fn joined(parts: Seq<Seq<char>>, sep: Seq<char>) -> Seq<char>
    decreases parts.len(),
{
    if parts.len() == 0 {
        Seq::empty()
    } else if parts.len() == 1 {
        parts[0]
    } else {
        joined(parts.drop_last(), sep) + sep + parts.last()
    }
}

/// Lexical normalization of a path.
pub open spec fn normal_path(t: Seq<char>) -> Seq<char> {
    "/"@ + joined(resolved(pieces(t)), "/"@)
}

fn split_path(t: &Text) -> (r: Vec<Text>)
    ensures
        contents(r@) == pieces(t@),
        r.len() > 0,
{
    let mut out: Vec<Text> = Vec::new();
    out.push(Vec::new());
    let mut i: usize = 0;
    assert(contents(out@) =~= pieces(t@.take(0)));
    while i < t.len()
        invariant
            i <= t.len(),
            out.len() > 0,
            contents(out@) == pieces(t@.take(i as int)),
        decreases t.len() - i,
    {
        let ghost before = contents(out@);
        proof {
            assert(t@.take(i + 1).drop_last() == t@.take(i as int));
        }
        if t[i] == '/' {
            out.push(Vec::new());
            assert(contents(out@) =~= before.push(Seq::empty()));
        } else {
            let last = out.len() - 1;
            out[last].push(t[i]);
            assert(contents(out@) =~= before.update(before.len() - 1, before.last().push(t@[i as int])));
        }
        i += 1;
    }
    assert(t@.take(t.len() as int) == t@);
    out
}

/// Texts one after the other with a separator between.
pub fn join_texts(parts: &Vec<Text>, sep: &Text) -> (r: Text)
    ensures
        r@ == joined(contents(parts@), sep@),
{
    let mut out: Text = Vec::new();
    let mut i: usize = 0;
    while i < parts.len()
        invariant
            i <= parts.len(),
            out@ == joined(contents(parts@).take(i as int), sep@),
        decreases parts.len() - i,
    {
        let ghost all = contents(parts@);
        proof {
            assert(all.take(i + 1).drop_last() == all.take(i as int));
        }
        if i > 0 {
            append_all(&mut out, sep);
        }
        append_all(&mut out, &parts[i]);
        assert(out@ == joined(all.take(i + 1), sep@));
        i += 1;
    }
    assert(contents(parts@).take(parts.len() as int) == contents(parts@));
    out
}

/// Whether a text holds exactly the characters of a string.
pub fn is_text(t: &Text, s: &str) -> (r: bool)
    ensures
        r == (t@ == s@),
{
    same_text(t, &text_of(s))
}

/// Lexical path normalization ("." and ".." segments).
pub fn normal_path_of(t: &Text) -> (r: Text)
    ensures
        r@ == normal_path(t@),
{
    let segs = split_path(t);
    let mut out: Vec<Text> = Vec::new();
    let mut i: usize = 0;
    assert(contents(out@) =~= resolved(contents(segs@).take(0)));
    while i < segs.len()
        invariant
            i <= segs.len(),
            contents(out@) == resolved(contents(segs@).take(i as int)),
        decreases segs.len() - i,
    {
        let ghost all = contents(segs@);
        let ghost before = contents(out@);
        proof {
            assert(all.take(i + 1).drop_last() == all.take(i as int));
            assert(all.take(i + 1).last() == segs@[i as int]@);
        }
        if is_text(&segs[i], "") || is_text(&segs[i], ".") {
        } else if is_text(&segs[i], "..") {
            if out.len() > 0 {
                let _ = out.pop();
                assert(contents(out@) =~= before.drop_last());
            }
        } else {
            out.push(copy_of(&segs[i]));
            assert(contents(out@) =~= before.push(segs@[i as int]@));
        }
        i += 1;
    }
    assert(contents(segs@).take(segs.len() as int) == contents(segs@));
    let mut r = text_of("/");
    append_all(&mut r, &join_texts(&out, &text_of("/")));
    r
}

/// Lexical path normalization; never touches the filesystem.
pub fn normalize_path(p: &str) -> (r: String)
    ensures
        r@ == normal_path(p@),
{
    string_of(&normal_path_of(&text_of(p)))
}

/// The position after the last slash among the first `n` characters.
pub open spec fn after_slash(t: Seq<char>, n: int) -> int
    decreases n,
{
    if n <= 0 {
        0
    } else if t[n - 1] == '/' {
        n
    } else {
        after_slash(t, n - 1)
    }
}

fn find_after_slash(t: &Text, n: usize) -> (r: usize)
    requires
        n <= t.len(),
    ensures
        r == after_slash(t@, n as int),
        r <= n,
{
    let mut i: usize = n;
    while i > 0 && t[i - 1] != '/'
        invariant
            i <= n <= t.len(),
            after_slash(t@, i as int) == after_slash(t@, n as int),
        decreases i,
    {
        i -= 1;
    }
    i
}

/// The last component of a path, after at most one trailing slash has been
/// taken off.
pub open spec fn base_name(t: Seq<char>) -> Seq<char> {
    if t.len() == 0 {
        t
    } else {
        let n = if t.last() == '/' && t.len() > 1 {
            t.len() - 1
        } else {
            t.len() as int
        };
        t.subrange(after_slash(t, n), n)
    }
}

/// A copy of part of a text.
pub fn slice_of(t: &Text, from: usize, to: usize) -> (r: Text)
    requires
        from <= to <= t.len(),
    ensures
        r@ == t@.subrange(from as int, to as int),
{
    let mut r: Text = Vec::new();
    let mut i: usize = from;
    while i < to
        invariant
            from <= i <= to <= t.len(),
            r@ == t@.subrange(from as int, i as int),
        decreases to - i,
    {
        r.push(t[i]);
        i += 1;
    }
    r
}

/// The last component of a path. At most one trailing slash is stripped, so
/// the base name of `a//` is empty.
pub fn legacy_base_name_of(t: &Text) -> (r: Text)
    ensures
        r@ == base_name(t@),
{
    if t.len() == 0 {
        return Vec::new();
    }
    let mut n: usize = t.len();
    if t[n - 1] == '/' && n > 1 {
        n -= 1;
    }
    let at = find_after_slash(t, n);
    slice_of(t, at, n)
}

/// What comes before the last slash: the root where that is the first
/// character, and the current directory where there is no slash.
pub open spec fn dir_name(t: Seq<char>) -> Seq<char> {
    let at = after_slash(t, t.len() as int);
    if at == 0 {
        "."@
    } else if at == 1 {
        "/"@
    } else {
        t.take(at - 1)
    }
}

pub fn dir_name_of(t: &Text) -> (r: Text)
    ensures
        r@ == dir_name(t@),
{
    let at = find_after_slash(t, t.len());
    if at == 0 {
        text_of(".")
    } else if at == 1 {
        text_of("/")
    } else {
        let r = slice_of(t, 0, at - 1);
        assert(r@ == t@.take(at - 1));
        r
    }
}

// -- null bytes --------------------------------------------------------------

/// The text with every null character made visible.
pub open spec fn nul_visible(t: Seq<char>) -> Seq<char> {
    Seq::new(
        t.len(),
        |i: int|
            if t[i] == '\0' {
                '\u{2400}'
            } else {
                t[i]
            },
    )
}

/// The complaint about a text with a null character in it.
pub open spec fn nul_complaint(t: Seq<char>) -> Seq<char> {
    "input string '"@ + nul_visible(t)
        + "' cannot be represented as Nix string because it contains null bytes"@
}

/// Refuses text carrying an interior null character.
pub fn nul_check(t: &Text) -> (r: Option<Text>)
    ensures
        match r {
            None => !t@.contains('\0'),
            Some(msg) => t@.contains('\0') && msg@ == nul_complaint(t@),
        },
{
    let mut shown: Text = Vec::new();
    let mut found: bool = false;
    let mut i: usize = 0;
    while i < t.len()
        invariant
            i <= t.len(),
            shown@ == nul_visible(t@).take(i as int),
            found == exists|j: int| 0 <= j < i && #[trigger] t@[j] == '\0',
        decreases t.len() - i,
    {
        if t[i] == '\0' {
            found = true;
            shown.push('\u{2400}');
        } else {
            shown.push(t[i]);
        }
        i += 1;
    }
    proof {
        assert(found == t@.contains('\0'));
        assert(nul_visible(t@).take(t.len() as int) == nul_visible(t@));
    }
    if found {
        let mut msg = text_of("input string '");
        append_all(&mut msg, &shown);
        append_str(
            &mut msg,
            "' cannot be represented as Nix string because it contains null bytes",
        );
        Some(msg)
    } else {
        None
    }
}

// -- versions ----------------------------------------------------------------

pub open spec fn is_digit(c: char) -> bool {
    48 <= c as int && c as int <= 57
}

pub fn digit(c: char) -> (r: bool)
    ensures
        r == is_digit(c),
{
    let n = c as u32;
    48 <= n && n <= 57
}

/// A version being cut up: the finished parts, the part under way, and
/// whether that part is made of digits.
pub struct Cut {
    pub parts: Seq<Seq<char>>,
    pub cur: Seq<char>,
    pub digits: Option<bool>,
}

/// One character further: "." and "-" separate, and so does the border
/// between digits and other characters.
pub open spec fn cut_step(s: Cut, c: char) -> Cut {
    let flushed = if s.cur.len() > 0 {
        s.parts.push(s.cur)
    } else {
        s.parts
    };
    if c == '.' || c == '-' {
        Cut { parts: flushed, cur: Seq::empty(), digits: None }
    } else if s.digits is Some && s.digits != Some(is_digit(c)) {
        Cut { parts: flushed, cur: seq![c], digits: Some(is_digit(c)) }
    } else {
        Cut { parts: s.parts, cur: s.cur.push(c), digits: Some(is_digit(c)) }
    }
}

pub open spec fn cut(t: Seq<char>) -> Cut
    decreases t.len(),
{
    if t.len() == 0 {
        Cut { parts: Seq::empty(), cur: Seq::empty(), digits: None }
    } else {
        cut_step(cut(t.drop_last()), t.last())
    }
}

/// The digit and non-digit runs of a version.
pub open spec fn version_runs(t: Seq<char>) -> Seq<Seq<char>> {
    let s = cut(t);
    if s.cur.len() > 0 {
        s.parts.push(s.cur)
    } else {
        s.parts
    }
}

/// Split into digit and non-digit runs; '.' and '-' separate.
pub fn version_parts(t: &Text) -> (r: Vec<Text>)
    ensures
        contents(r@) == version_runs(t@),
{
    let mut parts: Vec<Text> = Vec::new();
    let mut cur: Text = Vec::new();
    let mut digits: Option<bool> = None;
    let mut i: usize = 0;
    assert(contents(parts@) =~= cut(t@.take(0)).parts);
    while i < t.len()
        invariant
            i <= t.len(),
            contents(parts@) == cut(t@.take(i as int)).parts,
            cur@ == cut(t@.take(i as int)).cur,
            digits == cut(t@.take(i as int)).digits,
        decreases t.len() - i,
    {
        let c = t[i];
        let ghost before = contents(parts@);
        proof {
            assert(t@.take(i + 1).drop_last() == t@.take(i as int));
            assert(t@.take(i + 1).last() == c);
        }
        if c == '.' || c == '-' {
            if cur.len() > 0 {
                let done = copy_of(&cur);
                parts.push(done);
                assert(contents(parts@) =~= before.push(cur@));
            }
            cur = Vec::new();
            digits = None;
        } else {
            let d = digit(c);
            let turn = match digits {
                Some(x) => x != d,
                None => false,
            };
            if turn {
                if cur.len() > 0 {
                    let done = copy_of(&cur);
                    parts.push(done);
                    assert(contents(parts@) =~= before.push(cur@));
                }
                cur = Vec::new();
                cur.push(c);
                assert(cur@ =~= seq![c]);
            } else {
                cur.push(c);
            }
            digits = Some(d);
        }
        i += 1;
    }
    assert(t@.take(t.len() as int) == t@);
    if cur.len() > 0 {
        let ghost before = contents(parts@);
        let ghost last = cur@;
        parts.push(cur);
        assert(contents(parts@) =~= before.push(last));
    }
    parts
}

/// The number that a run of digits spells.
pub open spec fn digits_value(t: Seq<char>) -> nat
    decreases t.len(),
{
    if t.len() == 0 {
        0
    } else {
        digits_value(t.drop_last()) * 10 + (t.last() as int - 48) as nat
    }
}

/// The number a part spells, where it is a run of digits.
pub open spec fn part_number(t: Seq<char>) -> Option<int> {
    if t.len() > 0 && (forall|i: int| 0 <= i < t.len() ==> is_digit(#[trigger] t[i])) {
        Some(digits_value(t) as int)
    } else {
        None
    }
}

fn is_number(t: &Text) -> (r: bool)
    ensures
        r == (part_number(t@) is Some),
{
    let mut i: usize = 0;
    while i < t.len()
        invariant
            i <= t.len(),
            forall|j: int| 0 <= j < i ==> is_digit(#[trigger] t@[j]),
        decreases t.len() - i,
    {
        if !digit(t[i]) {
            assert(!is_digit(t@[i as int]));
            return false;
        }
        i += 1;
    }
    t.len() > 0
}

/// How two numbers compare.
pub open spec fn number_order(a: int, b: int) -> Order {
    if a < b {
        Order::Less
    } else if a == b {
        Order::Equal
    } else {
        Order::Greater
    }
}

/// Compares two runs of digits by the numbers that they spell, however long
/// they are: digit by digit from the left, the shorter one padded with zeros.
fn order_numbers(x: &Text, y: &Text) -> (r: Order)
    requires
        forall|i: int| 0 <= i < x.len() ==> is_digit(#[trigger] x@[i]),
        forall|i: int| 0 <= i < y.len() ==> is_digit(#[trigger] y@[i]),
    ensures
        r == number_order(digits_value(x@) as int, digits_value(y@) as int),
{
    let mut o = Order::Equal;
    let mut i: usize = 0;
    let mut j: usize = 0;
    while i < x.len() || j < y.len()
        invariant
            i <= x.len(),
            j <= y.len(),
            x.len() - i <= y.len() - j || j == 0,
            y.len() - j <= x.len() - i || i == 0,
            forall|k: int| 0 <= k < x.len() ==> is_digit(#[trigger] x@[k]),
            forall|k: int| 0 <= k < y.len() ==> is_digit(#[trigger] y@[k]),
            o == number_order(
                digits_value(x@.take(i as int)) as int,
                digits_value(y@.take(j as int)) as int,
            ),
        decreases x.len() - i + y.len() - j,
    {
        let left = x.len() - i;
        let right = y.len() - j;
        let mut p: u32 = 0;
        let mut q: u32 = 0;
        let ghost (a, b) = (digits_value(x@.take(i as int)), digits_value(y@.take(j as int)));
        proof {
            assert(x@.take(0) =~= Seq::empty());
            assert(y@.take(0) =~= Seq::empty());
        }
        if left >= right {
            p = code(x[i]) - 48;
            proof {
                assert(x@.take(i + 1).drop_last() =~= x@.take(i as int));
                assert(x@.take(i + 1).last() == x@[i as int]);
            }
            i += 1;
        }
        if right >= left {
            q = code(y[j]) - 48;
            proof {
                assert(y@.take(j + 1).drop_last() =~= y@.take(j as int));
                assert(y@.take(j + 1).last() == y@[j as int]);
            }
            j += 1;
        }
        proof {
            assert(digits_value(x@.take(i as int)) == a * 10 + p);
            assert(digits_value(y@.take(j as int)) == b * 10 + q);
            assert(p <= 9 && q <= 9);
        }
        if o == Order::Equal {
            o = if p < q {
                Order::Less
            } else if p == q {
                Order::Equal
            } else {
                Order::Greater
            };
        }
    }
    assert(x@.take(x.len() as int) =~= x@);
    assert(y@.take(y.len() as int) =~= y@);
    o
}

/// How two parts of a version compare: numbers numerically, "pre" before
/// everything, letters before numbers and otherwise by their text.
pub open spec fn part_order(x: Seq<char>, y: Seq<char>) -> Order {
    if x == y {
        Order::Equal
    } else {
        match (part_number(x), part_number(y)) {
            (Some(a), Some(b)) => number_order(a, b),
            (xn, yn) => if x == "pre"@ {
                Order::Less
            } else if y == "pre"@ || xn is Some {
                Order::Greater
            } else if yn is Some {
                Order::Less
            } else {
                text_order(x, y)
            },
        }
    }
}

pub open spec fn part_at(parts: Seq<Seq<char>>, i: int) -> Seq<char> {
    if i < parts.len() {
        parts[i]
    } else {
        ""@
    }
}

/// The first difference among the parts from `i` on decides.
pub open spec fn parts_order(a: Seq<Seq<char>>, b: Seq<Seq<char>>, i: int) -> Order
    decreases a.len() + b.len() - i,
{
    if i >= a.len() && i >= b.len() {
        Order::Equal
    } else if part_order(part_at(a, i), part_at(b, i)) != Order::Equal {
        part_order(part_at(a, i), part_at(b, i))
    } else {
        parts_order(a, b, i + 1)
    }
}

pub open spec fn version_order(a: Seq<char>, b: Seq<char>) -> Order {
    parts_order(version_runs(a), version_runs(b), 0)
}

fn order_parts(x: &Text, y: &Text) -> (r: Order)
    ensures
        r == part_order(x@, y@),
{
    if same_text(x, y) {
        return Order::Equal;
    }
    let xn = is_number(x);
    let yn = is_number(y);
    if xn && yn {
        order_numbers(x, y)
    } else if is_text(x, "pre") {
        Order::Less
    } else if is_text(y, "pre") || xn {
        Order::Greater
    } else if yn {
        Order::Less
    } else {
        order_texts(x, y)
    }
}

fn copy_part(parts: &Vec<Text>, i: usize) -> (r: Text)
    ensures
        r@ == part_at(contents(parts@), i as int),
{
    if i < parts.len() {
        copy_of(&parts[i])
    } else {
        text_of("")
    }
}

/// Compares two versions part by part.
pub fn compare_versions(a: &Text, b: &Text) -> (r: Order)
    ensures
        r == version_order(a@, b@),
{
    let pa = version_parts(a);
    let pb = version_parts(b);
    let mut i: usize = 0;
    while i < pa.len() || i < pb.len()
        invariant
            i <= pa.len() || i <= pb.len(),
            contents(pa@) == version_runs(a@),
            contents(pb@) == version_runs(b@),
            parts_order(contents(pa@), contents(pb@), i as int) == version_order(a@, b@),
        decreases pa.len() + pb.len() - i,
    {
        let o = order_parts(&copy_part(&pa, i), &copy_part(&pb, i));
        if o != Order::Equal {
            return o;
        }
        i += 1;
    }
    Order::Equal
}

} // verus!
