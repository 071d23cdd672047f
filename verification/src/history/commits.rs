//! Commit objects as bytes: the lines that name other objects, and everything
//! else, which is never touched.
use crate::history::error::{Error, ErrorView, Id, Kind};
use crate::history::tables::ids_view;
use crate::text::append_all;
use vstd::prelude::*;

verus! {

/// How many bytes an id has.
pub open spec fn id_len(wide: bool) -> nat {
    if wide {
        32
    } else {
        20
    }
}

// -- ids in base sixteen -----------------------------------------------------

/// The lower-case digit of a value below sixteen.
pub open spec fn digit_byte(n: int) -> u8 {
    if n < 10 {
        (n + 48) as u8
    } else {
        (n + 87) as u8
    }
}

/// Two lower-case digits per byte.
pub open spec fn hex_bytes(id: Seq<u8>) -> Seq<u8> {
    Seq::new(
        2 * id.len(),
        |i: int|
            digit_byte(
                if i % 2 == 0 {
                    id[i / 2] as int / 16
                } else {
                    id[i / 2] as int % 16
                },
            ),
    )
}

/// The value of a digit, in either case.
pub open spec fn digit_value(b: u8) -> Option<int> {
    if 48 <= b <= 57 {
        Some(b - 48)
    } else if 97 <= b <= 102 {
        Some(b - 87)
    } else if 65 <= b <= 70 {
        Some(b - 55)
    } else {
        None
    }
}

pub open spec fn all_digits(s: Seq<u8>) -> bool {
    forall|i: int| 0 <= i < s.len() ==> digit_value(#[trigger] s[i]) is Some
}

/// The bytes that digits spell.
pub open spec fn unhexed(s: Seq<u8>) -> Seq<u8> {
    Seq::new(
        s.len() / 2,
        |i: int| (16 * digit_value(s[2 * i])->0 + digit_value(s[2 * i + 1])->0) as u8,
    )
}

proof fn lemma_unhexed(id: Seq<u8>)
    ensures
        all_digits(hex_bytes(id)),
        unhexed(hex_bytes(id)) == id,
{
    let h = hex_bytes(id);
    assert forall|i: int| 0 <= i < h.len() implies digit_value(#[trigger] h[i]) is Some by {}
    assert forall|i: int| 0 <= i < id.len() implies unhexed(h)[i] == id[i] by {
        assert((2 * i) % 2 == 0 && (2 * i) / 2 == i);
        assert((2 * i + 1) % 2 == 1 && (2 * i + 1) / 2 == i);
        assert(digit_value(h[2 * i]) == Some(id[i] as int / 16));
        assert(digit_value(h[2 * i + 1]) == Some(id[i] as int % 16));
        assert(16 * (id[i] as int / 16) + id[i] as int % 16 == id[i]);
    }
    assert(unhexed(h) =~= id);
}

fn digit_of(n: u8) -> (r: u8)
    requires
        n < 16,
    ensures
        r == digit_byte(n as int),
{
    if n < 10 {
        n + 48
    } else {
        n + 87
    }
}

fn append_hex(out: &mut Vec<u8>, id: &Id)
    ensures
        final(out)@ == old(out)@ + hex_bytes(id@),
{
    let mut i: usize = 0;
    assert(hex_bytes(id@).take(0) =~= seq![]);
    while i < id.len()
        invariant
            i <= id.len(),
            out@ == old(out)@ + hex_bytes(id@).take(2 * i as int),
        decreases id.len() - i,
    {
        out.push(digit_of(id[i] / 16));
        out.push(digit_of(id[i] % 16));
        assert((2 * i as int) / 2 == i && (2 * i + 1) / 2 == i);
        assert(hex_bytes(id@).take(2 * i + 2) =~= hex_bytes(id@).take(2 * i as int).push(
            hex_bytes(id@)[2 * i as int],
        ).push(hex_bytes(id@)[2 * i + 1]));
        i += 1;
    }
    assert(hex_bytes(id@).take(2 * id@.len() as int) =~= hex_bytes(id@));
}

fn value_of(b: u8) -> (r: Option<u8>)
    ensures
        match r {
            Some(v) => digit_value(b) == Some(v as int) && v < 16,
            None => digit_value(b) is None,
        },
{
    if 48 <= b && b <= 57 {
        Some(b - 48)
    } else if 97 <= b && b <= 102 {
        Some(b - 87)
    } else if 65 <= b && b <= 70 {
        Some(b - 55)
    } else {
        None
    }
}

/// The id that digits from a place on spell.
fn read_hex(raw: &Vec<u8>, at: usize, n: usize) -> (r: Option<Id>)
    requires
        n <= 32,
        at + 2 * n <= raw.len(),
    ensures
        match r {
            Some(id) => all_digits(raw@.subrange(at as int, at + 2 * n)) && id@ == unhexed(
                raw@.subrange(at as int, at + 2 * n),
            ),
            None => !all_digits(raw@.subrange(at as int, at + 2 * n)),
        },
{
    let ghost s = raw@.subrange(at as int, at + 2 * n);
    let mut out: Id = Vec::new();
    let mut i: usize = 0;
    while i < n
        invariant
            i <= n <= 32,
            at + 2 * n <= raw.len(),
            s == raw@.subrange(at as int, at + 2 * n),
            forall|j: int| 0 <= j < 2 * i ==> digit_value(#[trigger] s[j]) is Some,
            out@ == unhexed(s).take(i as int),
        decreases n - i,
    {
        assert(s[2 * i as int] == raw@[at + 2 * i]);
        assert(s[2 * i + 1] == raw@[at + 2 * i + 1]);
        match (value_of(raw[at + 2 * i]), value_of(raw[at + 2 * i + 1])) {
            (Some(a), Some(b)) => {
                out.push(16 * a + b);
                assert(unhexed(s).take(i + 1) =~= unhexed(s).take(i as int).push(
                    unhexed(s)[i as int],
                ));
            },
            _ => return None,
        }
        i += 1;
    }
    assert(unhexed(s).take(n as int) =~= unhexed(s));
    Some(out)
}

// -- lines that name objects -------------------------------------------------

/// `tree ` as bytes.
pub open spec fn tree_word() -> Seq<u8> {
    seq![116u8, 114, 101, 101, 32]
}

/// `parent ` as bytes.
pub open spec fn parent_word() -> Seq<u8> {
    seq![112u8, 97, 114, 101, 110, 116, 32]
}

/// A line that names an object.
pub open spec fn id_line(word: Seq<u8>, id: Seq<u8>) -> Seq<u8> {
    word + hex_bytes(id) + seq![10u8]
}

/// The lines that name the first `n` parents.
pub open spec fn parent_lines(parents: Seq<Seq<u8>>, n: int) -> Seq<u8>
    decreases n,
{
    if n <= 0 {
        seq![]
    } else {
        parent_lines(parents, n - 1) + id_line(parent_word(), parents[n - 1])
    }
}

/// The lines a commit begins with: its tree, then its parents in order.
pub open spec fn head_text(tree: Seq<u8>, parents: Seq<Seq<u8>>) -> Seq<u8> {
    id_line(tree_word(), tree) + parent_lines(parents, parents.len() as int)
}

/// Whether a line that names an object stands at a place.
pub open spec fn names_at(raw: Seq<u8>, at: int, word: Seq<u8>, wide: bool) -> bool {
    let from = at + word.len();
    let to = from + 2 * id_len(wide);
    &&& 0 <= at
    &&& to < raw.len()
    &&& raw.subrange(at, from) == word
    &&& raw[to] == 10
    &&& all_digits(raw.subrange(from, to))
}

/// The id that the line at a place names.
pub open spec fn named_at(raw: Seq<u8>, at: int, word: Seq<u8>, wide: bool) -> Seq<u8> {
    unhexed(raw.subrange(at + word.len(), at + word.len() + 2 * id_len(wide)))
}

/// The place behind a line that names an object.
pub open spec fn behind(at: int, word: Seq<u8>, wide: bool) -> int {
    at + word.len() + 2 * id_len(wide) + 1
}

/// The parents named from a place on, and the place behind them.
#[verifier::opaque]
pub open spec fn parents_at(raw: Seq<u8>, at: int, wide: bool) -> (Seq<Seq<u8>>, int)
    decreases raw.len() - at,
{
    if names_at(raw, at, parent_word(), wide) {
        let (rest, end) = parents_at(raw, behind(at, parent_word(), wide), wide);
        (seq![named_at(raw, at, parent_word(), wide)] + rest, end)
    } else {
        (seq![], at)
    }
}

/// What a commit begins with, and where the rest begins.
pub struct HeadView {
    pub tree: Seq<u8>,
    pub parents: Seq<Seq<u8>>,
    pub end: int,
}

/// The lines a commit begins with. There are none where it does not begin with
/// its tree.
pub open spec fn head_of(raw: Seq<u8>, wide: bool) -> Option<HeadView> {
    if names_at(raw, 0, tree_word(), wide) {
        let (parents, end) = parents_at(raw, behind(0, tree_word(), wide), wide);
        Some(HeadView { tree: named_at(raw, 0, tree_word(), wide), parents, end })
    } else {
        None
    }
}

/// A line is found again where it was written.
proof fn lemma_id_line(before: Seq<u8>, word: Seq<u8>, id: Seq<u8>, rest: Seq<u8>, wide: bool)
    requires
        id.len() == id_len(wide),
    ensures
        ({
            let raw = before + id_line(word, id) + rest;
            let at = before.len() as int;
            names_at(raw, at, word, wide) && named_at(raw, at, word, wide) == id && behind(
                at,
                word,
                wide,
            ) == (before + id_line(word, id)).len()
        }),
{
    let raw = before + id_line(word, id) + rest;
    let at = before.len() as int;
    let from = at + word.len();
    let to = from + 2 * id_len(wide);
    lemma_unhexed(id);
    assert(raw.subrange(at, from) =~= word);
    assert(raw.subrange(from, to) =~= hex_bytes(id));
}

/// Whether a parent is named at the very start.
pub open spec fn begins_with_parent(rest: Seq<u8>, wide: bool) -> bool {
    names_at(rest, 0, parent_word(), wide)
}

/// No parent is named behind the lines where the rest begins with none.
proof fn lemma_no_parent(all: Seq<u8>, rest: Seq<u8>, wide: bool)
    requires
        !begins_with_parent(rest, wide),
    ensures
        !names_at(all + rest, all.len() as int, parent_word(), wide),
{
    let raw = all + rest;
    let at = all.len() as int;
    let k = parent_word().len() as int;
    let to = k + 2 * id_len(wide);
    if names_at(raw, at, parent_word(), wide) {
        assert(rest.subrange(0, k) =~= raw.subrange(at, at + k));
        assert(rest.subrange(k, to) =~= raw.subrange(at + k, at + to));
        assert(rest[to] == raw[at + to]);
        assert(false);
    }
}

/// One parent is found, and the next are looked for behind it.
proof fn lemma_one_parent(head: Seq<u8>, id: Seq<u8>, rest: Seq<u8>, wide: bool)
    requires
        id.len() == id_len(wide),
    ensures
        ({
            let line = id_line(parent_word(), id);
            let raw = head + line + rest;
            let next = parents_at(raw, (head + line).len() as int, wide);
            parents_at(raw, head.len() as int, wide) == (seq![id] + next.0, next.1)
        }),
{
    reveal(parents_at);
    lemma_id_line(head, parent_word(), id, rest, wide);
}

proof fn lemma_parents_at(
    before: Seq<u8>,
    parents: Seq<Seq<u8>>,
    rest: Seq<u8>,
    wide: bool,
    k: int,
)
    requires
        0 <= k <= parents.len(),
        forall|i: int| 0 <= i < parents.len() ==> (#[trigger] parents[i]).len() == id_len(wide),
        !begins_with_parent(rest, wide),
    ensures
        parents_at(
            before + parent_lines(parents, parents.len() as int) + rest,
            (before + parent_lines(parents, k)).len() as int,
            wide,
        ) == (
            parents.skip(k),
            (before + parent_lines(parents, parents.len() as int)).len() as int,
        ),
    decreases parents.len() - k,
{
    if k == parents.len() {
        lemma_parents_end(before + parent_lines(parents, k), rest, wide);
        assert(parents.skip(k) =~= seq![]);
    } else {
        lemma_parents_at(before, parents, rest, wide, k + 1);
        lemma_parents_step(before, parents, rest, wide, k);
        assert(seq![parents[k]] + parents.skip(k + 1) =~= parents.skip(k));
    }
}

/// Nothing is found behind the last parent.
proof fn lemma_parents_end(all: Seq<u8>, rest: Seq<u8>, wide: bool)
    requires
        !begins_with_parent(rest, wide),
    ensures
        parents_at(all + rest, all.len() as int, wide) == (
            Seq::<Seq<u8>>::empty(),
            all.len() as int,
        ),
{
    reveal(parents_at);
    lemma_no_parent(all, rest, wide);
}

/// The `k`th parent is found where its line begins.
proof fn lemma_parents_step(
    before: Seq<u8>,
    parents: Seq<Seq<u8>>,
    rest: Seq<u8>,
    wide: bool,
    k: int,
)
    requires
        0 <= k < parents.len(),
        parents[k].len() == id_len(wide),
    ensures
        ({
            let raw = before + parent_lines(parents, parents.len() as int) + rest;
            let next = parents_at(
                raw,
                (before + parent_lines(parents, k + 1)).len() as int,
                wide,
            );
            parents_at(raw, (before + parent_lines(parents, k)).len() as int, wide) == (
                seq![parents[k]] + next.0,
                next.1,
            )
        }),
{
    let n = parents.len() as int;
    let lines = parent_lines(parents, k);
    let line = id_line(parent_word(), parents[k]);
    let more = lines_between(parents, k + 1, n);
    lemma_lines_split(parents, k, n);
    lemma_regrouped(before, lines, line, more, rest);
    lemma_one_parent(before + lines, parents[k], more + rest, wide);
}

proof fn lemma_regrouped(a: Seq<u8>, b: Seq<u8>, c: Seq<u8>, d: Seq<u8>, e: Seq<u8>)
    ensures
        a + (b + c + d) + e == a + b + c + (d + e),
        a + (b + c) == a + b + c,
{
    assert(a + (b + c + d) + e =~= a + b + c + (d + e));
    assert(a + (b + c) =~= a + b + c);
}

/// The lines that name the parents from one place to another.
spec fn lines_between(parents: Seq<Seq<u8>>, from: int, to: int) -> Seq<u8>
    decreases to - from,
{
    if from >= to {
        seq![]
    } else {
        lines_between(parents, from, to - 1) + id_line(parent_word(), parents[to - 1])
    }
}

proof fn lemma_lines_split(parents: Seq<Seq<u8>>, k: int, n: int)
    requires
        0 <= k < n <= parents.len(),
    ensures
        parent_lines(parents, n) == parent_lines(parents, k) + id_line(parent_word(), parents[k])
            + lines_between(parents, k + 1, n),
    decreases n - k,
{
    if n == k + 1 {
        assert(lines_between(parents, k + 1, n) =~= seq![]);
        assert(parent_lines(parents, n) =~= parent_lines(parents, k) + id_line(
            parent_word(),
            parents[k],
        ) + lines_between(parents, k + 1, n));
    } else {
        lemma_lines_split(parents, k, n - 1);
        assert(parent_lines(parents, n) =~= parent_lines(parents, k) + id_line(
            parent_word(),
            parents[k],
        ) + lines_between(parents, k + 1, n));
    }
}

/// What a commit begins with is read back as it was written.
pub proof fn lemma_head_of(tree: Seq<u8>, parents: Seq<Seq<u8>>, rest: Seq<u8>, wide: bool)
    requires
        tree.len() == id_len(wide),
        forall|i: int| 0 <= i < parents.len() ==> (#[trigger] parents[i]).len() == id_len(wide),
        !begins_with_parent(rest, wide),
    ensures
        head_of(head_text(tree, parents) + rest, wide) == Some(
            HeadView { tree, parents, end: head_text(tree, parents).len() as int },
        ),
        (head_text(tree, parents) + rest).skip(head_text(tree, parents).len() as int) == rest,
{
    let first = id_line(tree_word(), tree);
    let raw = head_text(tree, parents) + rest;
    let empty = Seq::<u8>::empty();
    assert(raw =~= empty + first + (parent_lines(parents, parents.len() as int) + rest));
    lemma_id_line(
        empty,
        tree_word(),
        tree,
        parent_lines(parents, parents.len() as int) + rest,
        wide,
    );
    assert(empty + first =~= first);
    lemma_parents_at(first, parents, rest, wide, 0);
    assert(first + parent_lines(parents, 0) =~= first);
    assert(parents.skip(0) =~= parents);
    assert(raw.skip(head_text(tree, parents).len() as int) =~= rest);
}

/// What stands behind the lines a commit begins with does not begin with a
/// parent.
pub proof fn lemma_rest_of(raw: Seq<u8>, wide: bool)
    requires
        head_of(raw, wide) is Some,
    ensures
        0 <= head_of(raw, wide)->0.end <= raw.len(),
        !begins_with_parent(raw.skip(head_of(raw, wide)->0.end), wide),
        head_of(raw, wide)->0.tree.len() == id_len(wide),
        forall|i: int|
            0 <= i < head_of(raw, wide)->0.parents.len() ==> (#[trigger] head_of(
                raw,
                wide,
            )->0.parents[i]).len() == id_len(wide),
{
    lemma_rest_at(raw, behind(0, tree_word(), wide), wide);
}

proof fn lemma_rest_at(raw: Seq<u8>, at: int, wide: bool)
    requires
        0 <= at <= raw.len(),
    ensures
        at <= parents_at(raw, at, wide).1 <= raw.len(),
        !begins_with_parent(raw.skip(parents_at(raw, at, wide).1), wide),
        forall|i: int|
            0 <= i < parents_at(raw, at, wide).0.len() ==> (#[trigger] parents_at(
                raw,
                at,
                wide,
            ).0[i]).len() == id_len(wide),
    decreases raw.len() - at,
{
    reveal(parents_at);
    let all = parents_at(raw, at, wide).0;
    if names_at(raw, at, parent_word(), wide) {
        let next = behind(at, parent_word(), wide);
        lemma_rest_at(raw, next, wide);
        assert forall|i: int| 0 <= i < all.len() implies (#[trigger] all[i]).len() == id_len(
            wide,
        ) by {
            if i > 0 {
                assert(all[i] == parents_at(raw, next, wide).0[i - 1]);
            }
        }
    } else {
        let rest = raw.skip(at);
        if begins_with_parent(rest, wide) {
            let k = parent_word().len() as int;
            let to = k + 2 * id_len(wide);
            assert(raw.subrange(at, at + k) =~= rest.subrange(0, k));
            assert(raw.subrange(at + k, at + to) =~= rest.subrange(k, to));
            assert(raw[at + to] == rest[to]);
            assert(false);
        }
    }
}

fn begins_at(raw: &Vec<u8>, at: usize, word: &Vec<u8>) -> (r: bool)
    requires
        at + word.len() <= raw.len(),
    ensures
        r == (raw@.subrange(at as int, at + word.len()) == word@),
{
    let mut i: usize = 0;
    while i < word.len()
        invariant
            i <= word.len(),
            at + word.len() <= raw.len(),
            forall|j: int| 0 <= j < i ==> raw@[at + j] == word@[j],
        decreases word.len() - i,
    {
        if raw[at + i] != word[i] {
            assert(raw@.subrange(at as int, at + word.len())[i as int] != word@[i as int]);
            return false;
        }
        i += 1;
    }
    assert(raw@.subrange(at as int, at + word.len()) =~= word@);
    true
}

/// The id that a line at a place names, where there is one.
fn read_line(raw: &Vec<u8>, at: usize, word: &Vec<u8>, wide: bool) -> (r: Option<Id>)
    requires
        at <= raw.len(),
        word.len() < 16,
    ensures
        match r {
            Some(id) => names_at(raw@, at as int, word@, wide) && id@ == named_at(
                raw@,
                at as int,
                word@,
                wide,
            ) && behind(at as int, word@, wide) <= raw@.len(),
            None => !names_at(raw@, at as int, word@, wide),
        },
{
    let n: usize = if wide {
        32
    } else {
        20
    };
    if raw.len() - at <= word.len() + 2 * n {
        return None;
    }
    if raw[at + word.len() + 2 * n] != 10 || !begins_at(raw, at, word) {
        return None;
    }
    read_hex(raw, at + word.len(), n)
}

fn tree_word_bytes() -> (r: Vec<u8>)
    ensures
        r@ == tree_word(),
{
    let r: Vec<u8> = vec![116, 114, 101, 101, 32];
    assert(r@ =~= tree_word());
    r
}

fn parent_word_bytes() -> (r: Vec<u8>)
    ensures
        r@ == parent_word(),
{
    let r: Vec<u8> = vec![112, 97, 114, 101, 110, 116, 32];
    assert(r@ =~= parent_word());
    r
}

/// Where the rest of a commit begins, behind its tree and its parents.
fn rest_of(raw: &Vec<u8>, wide: bool) -> (r: Option<usize>)
    ensures
        match r {
            Some(end) => head_of(raw@, wide) is Some && head_of(raw@, wide)->0.end == end && end
                <= raw.len(),
            None => head_of(raw@, wide) is None,
        },
{
    let word = tree_word_bytes();
    if read_line(raw, 0, &word, wide).is_none() {
        return None;
    }
    let size: usize = if wide {
        64
    } else {
        40
    };
    let parent = parent_word_bytes();
    let mut at: usize = 5 + size + 1;
    while read_line(raw, at, &parent, wide).is_some()
        invariant
            at <= raw.len(),
            parent@ == parent_word(),
            size == 2 * id_len(wide),
            head_of(raw@, wide) is Some,
            head_of(raw@, wide)->0.end == parents_at(raw@, at as int, wide).1,
        decreases raw.len() - at,
    {
        proof {
            reveal(parents_at);
        }
        at = at + 7 + size + 1;
    }
    proof {
        reveal(parents_at);
    }
    Some(at)
}

/// A commit with another tree and other parents, and every other byte as it
/// was.
pub open spec fn replaced(raw: Seq<u8>, wide: bool, tree: Seq<u8>, parents: Seq<Seq<u8>>) -> Result<
    Seq<u8>,
    ErrorView,
> {
    match head_of(raw, wide) {
        Some(h) => Ok(head_text(tree, parents) + raw.skip(h.end)),
        None => Err(ErrorView::MalformedCommit),
    }
}

/// Replaces the tree and the parents of a commit, and copies the rest.
pub fn replace_ids(raw: &Vec<u8>, wide: bool, tree: &Id, parents: &Vec<Id>) -> (r: Result<
    Vec<u8>,
    Error,
>)
    ensures
        match r {
            Ok(out) => replaced(raw@, wide, tree@, ids_view(parents@)) == Ok::<Seq<u8>, ErrorView>(
                out@,
            ),
            Err(e) => replaced(raw@, wide, tree@, ids_view(parents@)) == Err::<Seq<u8>, ErrorView>(
                e@,
            ),
        },
{
    let end = match rest_of(raw, wide) {
        Some(end) => end,
        None => return Err(Error::MalformedCommit),
    };
    let ghost ps = ids_view(parents@);
    let mut out = tree_word_bytes();
    append_hex(&mut out, tree);
    out.push(10);
    let ghost first = out@;
    assert(first =~= id_line(tree_word(), tree@));
    let word = parent_word_bytes();
    let mut i: usize = 0;
    assert(out@ =~= first + parent_lines(ps, 0));
    while i < parents.len()
        invariant
            i <= parents.len(),
            word@ == parent_word(),
            ps == ids_view(parents@),
            out@ == first + parent_lines(ps, i as int),
        decreases parents.len() - i,
    {
        append_all(&mut out, &word);
        append_hex(&mut out, &parents[i]);
        out.push(10);
        assert(out@ =~= first + (parent_lines(ps, i as int) + id_line(
            parent_word(),
            ps[i as int],
        )));
        i += 1;
    }
    let mut k: usize = end;
    let ghost head = out@;
    assert(raw@.subrange(end as int, end as int) =~= seq![]);
    while k < raw.len()
        invariant
            end <= k <= raw.len(),
            out@ == head + raw@.subrange(end as int, k as int),
        decreases raw.len() - k,
    {
        out.push(raw[k]);
        assert(raw@.subrange(end as int, k + 1) =~= raw@.subrange(end as int, k as int).push(
            raw@[k as int],
        ));
        k += 1;
    }
    assert(raw@.subrange(end as int, raw@.len() as int) =~= raw@.skip(end as int));
    Ok(out)
}

/// Replacing leaves the rest alone, so replacing twice is replacing once.
pub proof fn law_replacing_twice_is_replacing_once(
    raw: Seq<u8>,
    wide: bool,
    t1: Seq<u8>,
    p1: Seq<Seq<u8>>,
    t2: Seq<u8>,
    p2: Seq<Seq<u8>>,
)
    requires
        head_of(raw, wide) is Some,
        t1.len() == id_len(wide),
        forall|i: int| 0 <= i < p1.len() ==> (#[trigger] p1[i]).len() == id_len(wide),
    ensures
        replaced(raw, wide, t1, p1) is Ok,
        replaced(replaced(raw, wide, t1, p1)->Ok_0, wide, t2, p2) == replaced(raw, wide, t2, p2),
{
    lemma_rest_of(raw, wide);
    let rest = raw.skip(head_of(raw, wide)->0.end);
    lemma_head_of(t1, p1, rest, wide);
}

// -- parsing -----------------------------------------------------------------

/// What is read from a commit object.
pub struct Commit {
    pub tree: Id,
    pub parents: Vec<Id>,
    pub message: Vec<u8>,
}

#[verifier::ext_equal]
pub struct CommitView {
    pub tree: Seq<u8>,
    pub parents: Seq<Seq<u8>>,
    pub message: Seq<u8>,
}

impl View for Commit {
    type V = CommitView;

    open spec fn view(&self) -> CommitView {
        CommitView { tree: self.tree@, parents: ids_view(self.parents@), message: self.message@ }
    }
}

/// The message that `gix_object::CommitRef::from_bytes` finds in what stands
/// behind a commit's tree and parents: the author, the committer, the headers
/// after them and the message. Nothing where that is not well-formed.
pub uninterp spec fn tail_message(rest: Seq<u8>) -> Option<Seq<u8>>;

/// What a commit object says.
pub open spec fn commit_of(raw: Seq<u8>, wide: bool) -> Option<CommitView> {
    match head_of(raw, wide) {
        None => None,
        Some(h) => match tail_message(raw.skip(h.end)) {
            None => None,
            Some(message) => Some(CommitView { tree: h.tree, parents: h.parents, message }),
        },
    }
}

/// `gix_object::CommitRef::from_bytes`, with its `tree`, `parents` and
/// `message`. It reads the tree's line, as many parents' lines as there are,
/// and then the rest, which decides about success by itself; what it finds in
/// the rest is named by [`tail_message`].
#[verifier::external_body]
pub(crate) fn parse_commit(raw: &Vec<u8>, wide: bool) -> (r: Option<Commit>)
    ensures
        match r {
            Some(c) => {
                &&& head_of(raw@, wide) is Some
                &&& c.tree@ == head_of(raw@, wide)->0.tree
                &&& ids_view(c.parents@) == head_of(raw@, wide)->0.parents
                &&& tail_message(raw@.skip(head_of(raw@, wide)->0.end)) == Some(c.message@)
            },
            None => head_of(raw@, wide) is None || tail_message(
                raw@.skip(head_of(raw@, wide)->0.end),
            ) is None,
        },
{
    let hash = if wide { gix::hash::Kind::Sha256 } else { gix::hash::Kind::Sha1 };
    match gix::objs::CommitRef::from_bytes(raw, hash) {
        Ok(c) => Some(Commit {
            tree: c.tree().as_bytes().to_vec(),
            parents: c.parents().map(|p| p.as_bytes().to_vec()).collect(),
            message: c.message.to_vec(),
        }),
        Err(_) => None,
    }
}

/// Whether a commit says nothing about itself: its message is blank.
///
/// An object that is not a commit is an error.
pub fn has_empty_description(raw: &Vec<u8>, wide: bool) -> (r: Result<bool, Error>)
    ensures
        match r {
            Ok(b) => commit_of(raw@, wide) is Some && b == is_blank_message(
                commit_of(raw@, wide)->0.message,
            ),
            Err(e) => commit_of(raw@, wide) is None && e@ == ErrorView::MalformedCommit,
        },
{
    match parse_commit(raw, wide) {
        Some(c) => Ok(crate::commands::push::is_blank(&c.message)),
        None => Err(Error::MalformedCommit),
    }
}

/// Whether a message is nothing but ASCII white space.
pub open spec fn is_blank_message(m: Seq<u8>) -> bool {
    forall|i: int| 0 <= i < m.len() ==> crate::commands::push::blank_byte(#[trigger] m[i])
}

/// The id of an object: what `gix_object::compute_hash` says for its kind and
/// its bytes. Nothing where it detects an attack on the hash.
pub uninterp spec fn object_id(wide: bool, kind: Kind, data: Seq<u8>) -> Option<Seq<u8>>;

/// `gix_object::compute_hash`, named by [`object_id`]. An id has the length of
/// its hash.
#[verifier::external_body]
pub(crate) fn hash_of(wide: bool, kind: Kind, data: &Vec<u8>) -> (r: Option<Id>)
    ensures
        match r {
            Some(id) => object_id(wide, kind, data@) == Some(id@) && id@.len() == id_len(wide),
            None => object_id(wide, kind, data@) is None,
        },
{
    let hash = if wide { gix::hash::Kind::Sha256 } else { gix::hash::Kind::Sha1 };
    let kind = match kind {
        Kind::Commit => gix::objs::Kind::Commit,
        Kind::Tree => gix::objs::Kind::Tree,
        Kind::Blob => gix::objs::Kind::Blob,
        Kind::Tag => gix::objs::Kind::Tag,
    };
    gix::objs::compute_hash(hash, kind, data).ok().map(|id| id.as_bytes().to_vec())
}

} // verus!
