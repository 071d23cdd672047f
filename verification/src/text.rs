//! Text as sequences of characters: the small operations everything else in
//! the crate is stated over.
use vstd::prelude::*;

verus! {

/// A piece of text held as its characters, so that every position is
/// addressable.
pub type Text = Vec<char>;

/// `String::push`: the character goes to the end of the string.
pub assume_specification[ String::push ](s: &mut String, c: char)
    ensures
        final(s)@ == old(s)@.push(c),
;

/// The string made of exactly these characters, in this order.
pub fn string_of(chars: &Vec<char>) -> (s: String)
    ensures
        s@ == chars@,
{
    let mut s = String::new();
    let mut i: usize = 0;
    while i < chars.len()
        invariant
            i <= chars.len(),
            s@ == chars@.take(i as int),
        decreases chars.len() - i,
    {
        s.push(chars[i]);
        i += 1;
    }
    s
}

/// The characters of a string.
pub fn text_of(s: &str) -> (t: Text)
    ensures
        t@ == s@,
{
    let mut t: Vec<char> = Vec::new();
    for c in it: s.chars()
        invariant
            t@ == it.seq().take(it.index()),
            it.seq() == s@,
    {
        t.push(c);
    }
    t
}

/// A fresh copy of a vector of plain values.
pub fn copy_of<T: Copy>(v: &Vec<T>) -> (r: Vec<T>)
    ensures
        r@ == v@,
{
    let mut r: Vec<T> = Vec::new();
    let mut i: usize = 0;
    while i < v.len()
        invariant
            i <= v.len(),
            r@ == v@.take(i as int),
        decreases v.len() - i,
    {
        r.push(v[i]);
        i += 1;
    }
    r
}

/// Appends the plain values of `more` to `v`.
pub fn append_all<T: Copy>(v: &mut Vec<T>, more: &Vec<T>)
    ensures
        final(v)@ == old(v)@ + more@,
{
    let mut i: usize = 0;
    while i < more.len()
        invariant
            i <= more.len(),
            v@ == old(v)@ + more@.take(i as int),
        decreases more.len() - i,
    {
        v.push(more[i]);
        i += 1;
    }
}

/// Appends the characters of a string to a text.
pub fn append_str(v: &mut Text, more: &str)
    ensures
        final(v)@ == old(v)@ + more@,
{
    let t = text_of(more);
    append_all(v, &t);
}

/// The hexadecimal digit of a value below sixteen.
pub open spec fn hex_digit(n: int) -> char {
    if n < 10 {
        (n + 48) as char
    } else {
        (n + 87) as char
    }
}

/// Two lower-case hexadecimal digits per byte, high half first.
pub open spec fn hex_text(bytes: Seq<u8>) -> Seq<char>
    decreases bytes.len(),
{
    if bytes.len() == 0 {
        Seq::empty()
    } else {
        hex_text(bytes.drop_last()).push(hex_digit(bytes.last() as int / 16)).push(
            hex_digit(bytes.last() as int % 16),
        )
    }
}

fn digit_char(n: u8) -> (c: char)
    requires
        n < 16,
    ensures
        c == hex_digit(n as int),
{
    if n < 10 {
        (n + 48) as char
    } else {
        (n + 87) as char
    }
}

/// Renders bytes in base sixteen.
pub fn hex_of(bytes: &Vec<u8>) -> (s: String)
    ensures
        s@ == hex_text(bytes@),
{
    string_of(&hex_chars(bytes))
}

/// Renders bytes in base sixteen.
pub fn hex_chars(bytes: &Vec<u8>) -> (out: Text)
    ensures
        out@ == hex_text(bytes@),
{
    let mut out: Vec<char> = Vec::new();
    let mut i: usize = 0;
    while i < bytes.len()
        invariant
            i <= bytes.len(),
            out@ == hex_text(bytes@.take(i as int)),
        decreases bytes.len() - i,
    {
        out.push(digit_char(bytes[i] / 16));
        out.push(digit_char(bytes[i] % 16));
        proof {
            assert(bytes@.take(i + 1).drop_last() == bytes@.take(i as int));
        }
        i += 1;
    }
    proof {
        assert(bytes@.take(bytes.len() as int) == bytes@);
    }
    out
}

/// A natural number in base ten, without leading zeros.
pub open spec fn nat_text(n: nat) -> Seq<char>
    decreases n,
{
    if n < 10 {
        seq![(n + 48) as char]
    } else {
        nat_text(n / 10).push((n % 10 + 48) as char)
    }
}

/// An integer in base ten, with a sign where it is negative.
pub open spec fn int_text(n: int) -> Seq<char> {
    if n < 0 {
        seq!['-'] + nat_text((-n) as nat)
    } else {
        nat_text(n as nat)
    }
}

fn append_nat(v: &mut Text, n: u128)
    ensures
        final(v)@ == old(v)@ + nat_text(n as nat),
    decreases n,
{
    if n < 10 {
        v.push((n as u8 + 48) as char);
    } else {
        append_nat(v, n / 10);
        v.push(((n % 10) as u8 + 48) as char);
    }
}

/// Appends an integer in base ten.
pub fn append_int(v: &mut Text, n: i128)
    ensures
        final(v)@ == old(v)@ + int_text(n as int),
{
    if n < 0 {
        v.push('-');
        let m: u128 = (-(n + 1)) as u128 + 1;
        append_nat(v, m);
    } else {
        append_nat(v, n as u128);
    }
}

// -- lines and fields --------------------------------------------------------

/// The place of the first `c` from `i` on, or the end.
pub open spec fn place_of(t: Seq<char>, c: char, i: int) -> int
    decreases t.len() - i,
{
    if i >= t.len() || t[i] == c {
        i
    } else {
        place_of(t, c, i + 1)
    }
}

pub proof fn lemma_place(t: Seq<char>, c: char, i: int)
    ensures
        place_of(t, c, i) >= i,
        i <= t.len() ==> place_of(t, c, i) <= t.len(),
        forall|j: int| i <= j < place_of(t, c, i) ==> t[j] != c,
        0 <= place_of(t, c, i) < t.len() ==> t[place_of(t, c, i)] == c,
    decreases t.len() - i,
{
    if !(i >= t.len() || t[i] == c) {
        lemma_place(t, c, i + 1);
    }
}

pub fn find_place(t: &Text, c: char, from: usize) -> (r: usize)
    requires
        from <= t.len(),
    ensures
        r == place_of(t@, c, from as int),
        from <= r <= t.len(),
{
    let mut n: usize = from;
    while n < t.len() && t[n] != c
        invariant
            from <= n <= t.len(),
            place_of(t@, c, from as int) == place_of(t@, c, n as int),
        decreases t.len() - n,
    {
        n += 1;
    }
    n
}

/// The characters of a text from one place to another.
pub fn part_of(t: &Text, from: usize, to: usize) -> (r: Text)
    requires
        from <= to <= t.len(),
    ensures
        r@ == t@.subrange(from as int, to as int),
{
    let mut r: Text = Vec::new();
    let mut i: usize = from;
    while i < to
        invariant
            from <= i <= to <= t.len(),
            r@ == t@.subrange(from as int, i as int),
        decreases to - i,
    {
        r.push(t[i]);
        i += 1;
    }
    r
}

/// The models of texts.
pub open spec fn texts_view(v: Seq<Text>) -> Seq<Seq<char>> {
    Seq::new(v.len(), |i: int| v[i]@)
}

/// The pieces of a text between the occurrences of `c`, from `i` on. There is
/// always one.
pub open spec fn fields_from(t: Seq<char>, c: char, i: int) -> Seq<Seq<char>>
    decreases t.len() - i,
    via fields_from_ends
{
    let n = place_of(t, c, i);
    if n >= t.len() || n < i {
        seq![t.skip(i)]
    } else {
        seq![t.subrange(i, n)] + fields_from(t, c, n + 1)
    }
}

#[via_fn]
proof fn fields_from_ends(t: Seq<char>, c: char, i: int) {
    lemma_place(t, c, i);
}

/// The pieces of a text between the occurrences of `c`.
pub open spec fn fields(t: Seq<char>, c: char) -> Seq<Seq<char>> {
    fields_from(t, c, 0)
}

pub fn fields_of(t: &Text, c: char) -> (r: Vec<Text>)
    ensures
        texts_view(r@) == fields(t@, c),
        r@.len() > 0,
{
    let mut out: Vec<Text> = Vec::new();
    let mut i: usize = 0;
    loop
        invariant
            i <= t.len(),
            fields(t@, c) == texts_view(out@) + fields_from(t@, c, i as int),
        decreases t.len() - i,
    {
        let n = find_place(t, c, i);
        let ghost before = out@;
        out.push(part_of(t, i, n));
        proof {
            lemma_place(t@, c, i as int);
            assert(texts_view(out@) =~= texts_view(before).push(t@.subrange(i as int, n as int)));
            assert(t@.skip(i as int) =~= t@.subrange(i as int, t@.len() as int));
        }
        if n >= t.len() {
            assert(texts_view(out@) =~= fields(t@, c));
            return out;
        }
        assert(texts_view(before) + (seq![t@.subrange(i as int, n as int)] + fields_from(
            t@,
            c,
            n + 1,
        )) =~= texts_view(out@) + fields_from(t@, c, n + 1));
        i = n + 1;
    }
}

/// Splitting starts over behind an occurrence.
pub proof fn lemma_fields_skip(t: Seq<char>, c: char, k: int, i: int)
    requires
        0 <= k <= i <= t.len(),
    ensures
        fields_from(t, c, i) == fields_from(t.skip(k), c, i - k),
    decreases t.len() - i,
{
    let s = t.skip(k);
    lemma_place(t, c, i);
    lemma_place(s, c, i - k);
    lemma_place_skip(t, c, k, i);
    let n = place_of(t, c, i);
    if n < t.len() {
        lemma_fields_skip(t, c, k, n + 1);
        assert(t.subrange(i, n) =~= s.subrange(i - k, n - k));
    } else {
        assert(t.skip(i) =~= s.skip(i - k));
    }
}

proof fn lemma_place_skip(t: Seq<char>, c: char, k: int, i: int)
    requires
        0 <= k <= i <= t.len(),
    ensures
        place_of(t.skip(k), c, i - k) == place_of(t, c, i) - k,
    decreases t.len() - i,
{
    if !(i >= t.len() || t[i] == c) {
        lemma_place_skip(t, c, k, i + 1);
    }
}

/// Whether a character is nowhere in a text.
pub open spec fn lacks(t: Seq<char>, c: char) -> bool {
    forall|i: int| 0 <= i < t.len() ==> #[trigger] t[i] != c
}

/// A piece without the separator, the separator, and the rest.
pub proof fn lemma_fields_cons(a: Seq<char>, c: char, rest: Seq<char>)
    requires
        lacks(a, c),
    ensures
        fields(a + seq![c] + rest, c) == seq![a] + fields(rest, c),
{
    let t = a + seq![c] + rest;
    lemma_place(t, c, 0);
    let n = place_of(t, c, 0);
    assert(t[a.len() as int] == c);
    if n < a.len() {
        assert(t[n] == a[n]);
    }
    assert(n == a.len());
    assert(t.subrange(0, n) =~= a);
    lemma_fields_skip(t, c, n + 1, n + 1);
    assert(t.skip(n + 1) =~= rest);
}

/// A text without the separator is one piece.
pub proof fn lemma_fields_one(a: Seq<char>, c: char)
    requires
        lacks(a, c),
    ensures
        fields(a, c) == seq![a],
{
    lemma_place(a, c, 0);
    assert(a.skip(0) =~= a);
}

/// A line without the carriage return before its newline.
pub open spec fn uncarried(t: Seq<char>) -> Seq<char> {
    if t.len() > 0 && t.last() == '\r' {
        t.drop_last()
    } else {
        t
    }
}

/// The lines of a text. The last one need not end in a newline, and only a
/// carriage return in front of a newline belongs to the line's end.
pub open spec fn lines(t: Seq<char>) -> Seq<Seq<char>> {
    let all = fields(t, '\n');
    let ended = Seq::new((all.len() - 1) as nat, |i: int| uncarried(all[i]));
    if all.last().len() == 0 {
        ended
    } else {
        ended.push(all.last())
    }
}

pub fn lines_of(t: &Text) -> (r: Vec<Text>)
    ensures
        texts_view(r@) == lines(t@),
{
    let mut all = fields_of(t, '\n');
    let ghost whole = texts_view(all@);
    let last = match all.pop() {
        Some(x) => x,
        None => Vec::new(),
    };
    let mut out: Vec<Text> = Vec::new();
    let mut i: usize = 0;
    assert(forall|j: int| 0 <= j < all@.len() ==> all@[j]@ == #[trigger] whole[j]);
    while i < all.len()
        invariant
            i <= all.len(),
            whole.len() == all@.len() + 1,
            out@.len() == i,
            forall|j: int| 0 <= j < all@.len() ==> all@[j]@ == #[trigger] whole[j],
            forall|j: int| 0 <= j < i ==> (#[trigger] out@[j])@ == uncarried(whole[j]),
        decreases all.len() - i,
    {
        let line = &all[i];
        let n = line.len();
        let to = if n > 0 && line[n - 1] == '\r' {
            n - 1
        } else {
            n
        };
        let cut = part_of(line, 0, to);
        assert(cut@ =~= uncarried(whole[i as int]));
        out.push(cut);
        i += 1;
    }
    if last.len() > 0 {
        out.push(last);
    }
    assert(texts_view(out@) =~= lines(t@));
    out
}

} // verus!
