//! Reading what the last survey left about the view that owns a directory.
use crate::lang::heap::contents;
use crate::lang::strings::{digit, digits_value, is_digit, slice_of};
use crate::prompt::views::{Counts, View as ViewAt};
use crate::text::{string_of, text_of, Text};
use vstd::prelude::*;

verus! {

/// The first position from `i` on of a character.
pub open spec fn first_at(t: Seq<char>, c: char, i: int) -> int
    decreases t.len() - i,
{
    if i >= t.len() || t[i] == c {
        i
    } else {
        first_at(t, c, i + 1)
    }
}

/// The first line of a text, without its line break.
pub open spec fn first_line(t: Seq<char>) -> Seq<char> {
    let n = first_at(t, '\n', 0);
    if 0 < n < t.len() && t[n - 1] == '\r' {
        t.take(n - 1)
    } else {
        t.take(n)
    }
}

/// The tab-separated columns of a line from position `i` on.
pub open spec fn columns(t: Seq<char>, i: int) -> Seq<Seq<char>>
    decreases t.len() - i,
{
    let n = first_at(t, '\t', i);
    if i < 0 || i > t.len() || n < i {
        Seq::empty()
    } else if n >= t.len() {
        seq![t.subrange(i, t.len() as int)]
    } else {
        seq![t.subrange(i, n)] + columns(t, n + 1)
    }
}

/// A text without a leading plus.
pub open spec fn unplussed(t: Seq<char>) -> Seq<char> {
    if t.len() > 0 && t[0] == '+' {
        t.skip(1)
    } else {
        t
    }
}

/// The natural number a text spells, with or without a leading plus.
pub open spec fn natural(t: Seq<char>) -> Option<usize> {
    let d = unplussed(t);
    if d.len() == 0 || exists|i: int| 0 <= i < d.len() && !is_digit(#[trigger] d[i]) {
        None
    } else if digits_value(d) > usize::MAX {
        None
    } else {
        Some(digits_value(d) as usize)
    }
}

/// A view as plain words: its name and its counts.
pub open spec fn view_of(v: Option<ViewAt>) -> Option<(Seq<char>, Option<Counts>)> {
    match v {
        None => None,
        Some(v) => Some((v.name@, v.counts)),
    }
}

/// What a survey line says: `name<TAB>behind<TAB>ahead`, or a bare name for a
/// view never surveyed, or nothing outside every view.
pub open spec fn survey(stdout: Seq<char>) -> Option<(Seq<char>, Option<Counts>)> {
    let cols = columns(first_line(stdout), 0);
    if stdout.len() == 0 || cols.len() == 0 || cols[0].len() == 0 {
        None
    } else if cols.len() < 3 {
        Some((cols[0], None))
    } else {
        match (natural(cols[1]), natural(cols[2])) {
            (Some(behind), Some(ahead)) => Some((cols[0], Some(Counts { behind, ahead }))),
            _ => None,
        }
    }
}

fn find_first(t: &Text, c: char, from: usize) -> (r: usize)
    requires
        from <= t.len(),
    ensures
        r == first_at(t@, c, from as int),
        from <= r <= t.len(),
{
    let mut i: usize = from;
    while i < t.len() && t[i] != c
        invariant
            from <= i <= t.len(),
            first_at(t@, c, i as int) == first_at(t@, c, from as int),
        decreases t.len() - i,
    {
        i += 1;
    }
    i
}

fn line_of(t: &Text) -> (r: Text)
    ensures
        r@ == first_line(t@),
{
    let n = find_first(t, '\n', 0);
    if 0 < n && n < t.len() && t[n - 1] == '\r' {
        let r = slice_of(t, 0, n - 1);
        assert(r@ =~= t@.take(n - 1));
        r
    } else {
        let r = slice_of(t, 0, n);
        assert(r@ =~= t@.take(n as int));
        r
    }
}

fn columns_of(t: &Text) -> (r: Vec<Text>)
    ensures
        contents(r@) == columns(t@, 0),
{
    let mut out: Vec<Text> = Vec::new();
    let mut i: usize = 0;
    assert(contents(out@) + columns(t@, 0) =~= columns(t@, 0));
    loop
        invariant
            i <= t.len(),
            contents(out@) + columns(t@, i as int) == columns(t@, 0),
        decreases t.len() - i,
    {
        let n = find_first(t, '\t', i);
        let ghost before = contents(out@);
        let cell = slice_of(t, i, n);
        let ghost text = cell@;
        out.push(cell);
        assert(contents(out@) =~= before.push(text));
        if n >= t.len() {
            assert(contents(out@) =~= before + columns(t@, i as int));
            return out;
        }
        assert(contents(out@) + columns(t@, n + 1) =~= before + columns(
            t@,
            i as int,
        ));
        i = n + 1;
    }
}

/// The natural number a text spells.
pub fn natural_of(t: &Text) -> (r: Option<usize>)
    ensures
        r == natural(t@),
{
    let start: usize = if t.len() > 0 && t[0] == '+' {
        1
    } else {
        0
    };
    let ghost d = unplussed(t@);
    assert(d =~= t@.skip(start as int));
    if t.len() == start {
        return None;
    }
    let mut v: u128 = 0;
    let mut over: bool = false;
    let mut i: usize = start;
    assert(d.take(0) =~= Seq::empty());
    while i < t.len()
        invariant
            start <= i <= t.len(),
            start <= 1,
            d == t@.skip(start as int),
            d == unplussed(t@),
            forall|j: int| 0 <= j < i - start ==> is_digit(#[trigger] d[j]),
            over ==> digits_value(d.take(i - start)) > usize::MAX,
            !over ==> v == digits_value(d.take(i - start)) && v <= usize::MAX,
        decreases t.len() - i,
    {
        let c = t[i];
        if !digit(c) {
            assert(!is_digit(d[i - start]));
            assert(natural(t@) is None);
            return None;
        }
        let x = c as u32 as u128 - 48;
        proof {
            assert(d.take(i + 1 - start).drop_last() =~= d.take(i - start));
            assert(d.take(i + 1 - start).last() == c);
        }
        if !over {
            v = v * 10 + x;
            if v > usize::MAX as u128 {
                over = true;
            }
        }
        i += 1;
    }
    assert(d.take(i - start) =~= d);
    if over {
        None
    } else {
        Some(v as usize)
    }
}

/// Reads a survey line.
pub fn parse(stdout: &str) -> (r: Option<ViewAt>)
    ensures
        view_of(r) == survey(stdout@),
{
    let t = text_of(stdout);
    if t.len() == 0 {
        return None;
    }
    let cols = columns_of(&line_of(&t));
    let ghost all = columns(first_line(stdout@), 0);
    assert(contents(cols@) == all);
    if cols.len() == 0 {
        return None;
    }
    assert(all[0] == cols@[0]@);
    if cols[0].len() == 0 {
        return None;
    }
    let name = string_of(&cols[0]);
    if cols.len() < 3 {
        return Some(ViewAt { name, counts: None });
    }
    assert(all[1] == cols@[1]@ && all[2] == cols@[2]@);
    let behind = match natural_of(&cols[1]) {
        None => return None,
        Some(n) => n,
    };
    let ahead = match natural_of(&cols[2]) {
        None => return None,
        Some(n) => n,
    };
    Some(ViewAt { name, counts: Some(Counts { behind, ahead }) })
}

} // verus!
