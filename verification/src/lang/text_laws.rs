//! What holds of the order of versions and of normal paths.
use crate::lang::quote::{closed_run, hit, lemma_hit, plan_from, stands_at, PieceView};
use crate::lang::strings::{
    joined, normal_path, part_at, part_number, part_order, parts_order, pieces,
    resolved, text_order, text_order_from, version_order, version_runs, Order,
};
use crate::text::lacks;
use vstd::prelude::*;

verus! {

// -- versions ----------------------------------------------------------------

/// The other way round.
pub open spec fn turned(o: Order) -> Order {
    match o {
        Order::Less => Order::Greater,
        Order::Equal => Order::Equal,
        Order::Greater => Order::Less,
    }
}

/// Two steps up, of which `o` and `p` say how far: where the comparison of the
/// ends has to come out.
pub open spec fn follows(o: Order, p: Order, ends: Order) -> bool {
    o != Order::Greater && p != Order::Greater ==> ends != Order::Greater && (ends == Order::Equal
        ==> o == Order::Equal && p == Order::Equal)
}

pub proof fn lemma_text_order_turns(a: Seq<char>, b: Seq<char>, i: int)
    requires
        0 <= i,
    ensures
        text_order_from(b, a, i) == turned(text_order_from(a, b, i)),
        text_order_from(a, a, i) == Order::Equal,
    decreases a.len() + b.len() - i,
{
    if i < a.len() || i < b.len() {
        lemma_text_order_turns(a, b, i + 1);
    }
}

pub proof fn lemma_text_order_follows(a: Seq<char>, b: Seq<char>, c: Seq<char>, i: int)
    requires
        0 <= i,
    ensures
        follows(text_order_from(a, b, i), text_order_from(b, c, i), text_order_from(a, c, i)),
    decreases a.len() + b.len() + c.len() - i,
{
    if i < a.len() || i < b.len() || i < c.len() {
        lemma_text_order_follows(a, b, c, i + 1);
    }
}

/// Texts that compare equal from a position on are the same from there on.
proof fn lemma_text_order_equal(a: Seq<char>, b: Seq<char>, i: int)
    requires
        0 <= i,
        text_order_from(a, b, i) == Order::Equal,
        i <= a.len(),
        i <= b.len(),
    ensures
        a.len() == b.len(),
        forall|j: int| i <= j < a.len() ==> a[j] == b[j],
    decreases a.len() + b.len() - i,
{
    if i < a.len() || i < b.len() {
        lemma_text_order_equal(a, b, i + 1);
    }
}

proof fn lemma_part_order_turns(x: Seq<char>, y: Seq<char>)
    ensures
        part_order(y, x) == turned(part_order(x, y)),
{
    reveal_strlit("pre");
    lemma_text_order_turns(x, y, 0);
    assert("pre"@[0] == 'p');
    assert(part_number("pre"@) is None);
}

proof fn lemma_part_order_follows(x: Seq<char>, y: Seq<char>, z: Seq<char>)
    ensures
        follows(part_order(x, y), part_order(y, z), part_order(x, z)),
{
    reveal_strlit("pre");
    assert("pre"@[0] == 'p');
    assert(part_number("pre"@) is None);
    lemma_text_order_follows(x, y, z, 0);
    lemma_part_order_turns(x, y);
    if text_order(x, y) == Order::Equal {
        lemma_text_order_equal(x, y, 0);
        assert(x =~= y);
    }
    if text_order(y, z) == Order::Equal {
        lemma_text_order_equal(y, z, 0);
        assert(y =~= z);
    }
    if text_order(x, z) == Order::Equal {
        lemma_text_order_equal(x, z, 0);
        assert(x =~= z);
    }
}

proof fn lemma_parts_order_turns(a: Seq<Seq<char>>, b: Seq<Seq<char>>, i: int)
    requires
        0 <= i,
    ensures
        parts_order(b, a, i) == turned(parts_order(a, b, i)),
    decreases a.len() + b.len() - i,
{
    if i < a.len() || i < b.len() {
        lemma_part_order_turns(part_at(a, i), part_at(b, i));
        lemma_parts_order_turns(a, b, i + 1);
    }
}

proof fn lemma_parts_order_follows(
    a: Seq<Seq<char>>,
    b: Seq<Seq<char>>,
    c: Seq<Seq<char>>,
    i: int,
)
    requires
        0 <= i,
    ensures
        follows(parts_order(a, b, i), parts_order(b, c, i), parts_order(a, c, i)),
    decreases a.len() + b.len() + c.len() - i,
{
    if i < a.len() || i < b.len() || i < c.len() {
        lemma_part_order_follows(part_at(a, i), part_at(b, i), part_at(c, i));
        lemma_parts_order_follows(a, b, c, i + 1);
    }
}

/// The order of versions is a total preorder: a version equals itself, two
/// versions compare the other way round when they are swapped, and what is at
/// most something that is at most a third is at most the third.
pub proof fn law_version_order_is_a_preorder(a: Seq<char>, b: Seq<char>, c: Seq<char>)
    ensures
        version_order(a, a) == Order::Equal,
        version_order(b, a) == turned(version_order(a, b)),
        version_order(a, b) != Order::Greater && version_order(b, c) != Order::Greater
            ==> version_order(a, c) != Order::Greater,
{
    lemma_parts_order_turns(version_runs(a), version_runs(a), 0);
    lemma_parts_order_turns(version_runs(a), version_runs(b), 0);
    lemma_parts_order_follows(version_runs(a), version_runs(b), version_runs(c), 0);
}

// -- paths -------------------------------------------------------------------

/// Whether a path component stands for itself.
pub open spec fn plain(s: Seq<char>) -> bool {
    s != ""@ && s != "."@ && s != ".."@ && lacks(s, '/')
}

spec fn all_plain(cs: Seq<Seq<char>>) -> bool {
    forall|i: int| 0 <= i < cs.len() ==> plain(#[trigger] cs[i])
}

proof fn lemma_pieces_lack(t: Seq<char>)
    ensures
        pieces(t).len() > 0,
        forall|i: int| 0 <= i < pieces(t).len() ==> lacks(#[trigger] pieces(t)[i], '/'),
    decreases t.len(),
{
    if t.len() > 0 {
        lemma_pieces_lack(t.drop_last());
        let rest = pieces(t.drop_last());
        assert forall|i: int| 0 <= i < pieces(t).len() implies lacks(
            #[trigger] pieces(t)[i],
            '/',
        ) by {
            if i < rest.len() {
                assert(lacks(rest[i], '/'));
            }
        }
    }
}

proof fn lemma_resolved_plain(segs: Seq<Seq<char>>)
    requires
        forall|i: int| 0 <= i < segs.len() ==> lacks(#[trigger] segs[i], '/'),
    ensures
        all_plain(resolved(segs)),
    decreases segs.len(),
{
    if segs.len() > 0 {
        let low = segs.drop_last();
        assert forall|i: int| 0 <= i < low.len() implies lacks(#[trigger] low[i], '/') by {
            assert(low[i] == segs[i]);
        }
        lemma_resolved_plain(low);
        let out = resolved(low);
        assert forall|i: int| 0 <= i < resolved(segs).len() implies plain(
            #[trigger] resolved(segs)[i],
        ) by {
            if i < out.len() {
                assert(plain(out[i]));
            } else {
                assert(lacks(segs[segs.len() - 1], '/'));
            }
        }
    }
}

/// A slash and a text without one add one piece.
proof fn lemma_pieces_add(a: Seq<char>, b: Seq<char>)
    requires
        lacks(b, '/'),
    ensures
        pieces(a + seq!['/'] + b) == pieces(a).push(b),
    decreases b.len(),
{
    let t = a + seq!['/'] + b;
    if b.len() == 0 {
        assert(t.drop_last() =~= a);
        assert(b =~= Seq::empty());
    } else {
        assert(t.drop_last() =~= a + seq!['/'] + b.drop_last());
        assert forall|i: int| 0 <= i < b.drop_last().len() implies #[trigger] b.drop_last()[i]
            != '/' by {
            assert(b.drop_last()[i] == b[i]);
        }
        lemma_pieces_add(a, b.drop_last());
        assert(b[b.len() - 1] != '/');
        let rest = pieces(a).push(b.drop_last());
        assert(b.drop_last().push(b.last()) =~= b);
        assert(rest.update(rest.len() - 1, rest.last().push(t.last())) =~= pieces(a).push(b));
    }
}

/// The pieces of a path made of plain components.
proof fn lemma_pieces_joined(cs: Seq<Seq<char>>)
    requires
        all_plain(cs),
        cs.len() > 0,
    ensures
        pieces("/"@ + joined(cs, "/"@)) == seq![Seq::<char>::empty()] + cs,
    decreases cs.len(),
{
    reveal_strlit("/");
    assert("/"@ =~= seq!['/']);
    let none = Seq::<char>::empty();
    assert(plain(cs[cs.len() - 1]));
    if cs.len() == 1 {
        lemma_pieces_add(none, cs[0]);
        assert(none + seq!['/'] + cs[0] =~= "/"@ + joined(cs, "/"@));
        assert(pieces(none) =~= seq![none]);
        assert(seq![none].push(cs[0]) =~= seq![none] + cs);
    } else {
        let low = cs.drop_last();
        assert forall|i: int| 0 <= i < low.len() implies plain(#[trigger] low[i]) by {
            assert(low[i] == cs[i]);
        }
        lemma_pieces_joined(low);
        let a = "/"@ + joined(low, "/"@);
        lemma_pieces_add(a, cs.last());
        assert(a + seq!['/'] + cs.last() =~= "/"@ + joined(cs, "/"@));
        assert((seq![none] + low).push(cs.last()) =~= seq![none] + cs);
    }
}

/// Plain components resolve to themselves.
proof fn lemma_resolved_same(cs: Seq<Seq<char>>)
    requires
        all_plain(cs),
    ensures
        resolved(seq![Seq::<char>::empty()] + cs) == cs,
    decreases cs.len(),
{
    reveal_strlit("");
    let none = Seq::<char>::empty();
    let all = seq![none] + cs;
    assert(""@ =~= none);
    if cs.len() == 0 {
        let e = Seq::<Seq<char>>::empty();
        assert(all.drop_last() =~= e);
        assert(resolved(e) =~= e);
        assert(all.last() == none);
        assert(cs =~= e);
    } else {
        let low = cs.drop_last();
        assert forall|i: int| 0 <= i < low.len() implies plain(#[trigger] low[i]) by {
            assert(low[i] == cs[i]);
        }
        lemma_resolved_same(low);
        assert(all.drop_last() =~= seq![none] + low);
        assert(plain(cs[cs.len() - 1]));
        assert(low.push(cs.last()) =~= cs);
    }
}

/// What a normal path resolves to is what the path resolved to.
proof fn lemma_normal_resolves(t: Seq<char>)
    ensures
        all_plain(resolved(pieces(t))),
        resolved(pieces(normal_path(t))) == resolved(pieces(t)),
        resolved(pieces(t)).len() > 0 ==> pieces(normal_path(t)) == seq![Seq::<char>::empty()]
            + resolved(pieces(t)),
        resolved(pieces(t)).len() == 0 ==> normal_path(t) == "/"@,
{
    let cs = resolved(pieces(t));
    lemma_pieces_lack(t);
    lemma_resolved_plain(pieces(t));
    reveal_strlit("/");
    reveal_strlit("");
    assert("/"@ =~= seq!['/']);
    let none = Seq::<char>::empty();
    if cs.len() == 0 {
        assert(normal_path(t) =~= seq!['/']);
        assert(seq!['/'].drop_last() =~= none);
        assert(pieces(none) =~= seq![none]);
        assert(pieces(seq!['/']) =~= seq![none, none]);
        assert(""@ =~= none);
        assert(seq![none, none].drop_last() =~= seq![none]);
        let e = Seq::<Seq<char>>::empty();
        assert(seq![none].drop_last() =~= e);
        assert(resolved(e) =~= e);
        assert(seq![none].last() == none);
        assert(resolved(seq![none]) =~= e);
        assert(seq![none, none].last() == none);
        assert(resolved(seq![none, none]) =~= e);
        assert(cs =~= e);
    } else {
        lemma_pieces_joined(cs);
        lemma_resolved_same(cs);
    }
}

/// Normalizing a path twice is normalizing it once.
pub proof fn law_normal_path_is_normal(t: Seq<char>)
    ensures
        normal_path(normal_path(t)) == normal_path(t),
{
    lemma_normal_resolves(t);
}

/// A path with nothing but its root and plain components has no slash at its
/// end and no two in a row.
proof fn lemma_joined_shape(cs: Seq<Seq<char>>)
    requires
        all_plain(cs),
        cs.len() > 0,
    ensures
        ({
            let r = "/"@ + joined(cs, "/"@);
            &&& r.len() > 1
            &&& r[0] == '/'
            &&& r.last() != '/'
            &&& forall|i: int| 0 <= i < r.len() - 1 && #[trigger] r[i] == '/' ==> r[i + 1] != '/'
        }),
    decreases cs.len(),
{
    reveal_strlit("/");
    reveal_strlit("");
    assert("/"@ =~= seq!['/']);
    assert(""@ =~= Seq::empty());
    let c = cs[cs.len() - 1];
    assert(plain(c));
    assert(c.len() > 0) by {
        if c.len() == 0 {
            assert(c =~= ""@);
        }
    }
    assert(c[c.len() - 1] != '/');
    assert(c[0] != '/');
    let r = "/"@ + joined(cs, "/"@);
    if cs.len() == 1 {
        assert(r =~= seq!['/'] + c);
        assert forall|i: int| 0 <= i < r.len() - 1 && #[trigger] r[i] == '/' implies r[i + 1]
            != '/' by {
            assert(r[i + 1] == c[i]);
        }
    } else {
        let low = cs.drop_last();
        assert forall|i: int| 0 <= i < low.len() implies plain(#[trigger] low[i]) by {
            assert(low[i] == cs[i]);
        }
        lemma_joined_shape(low);
        let a = "/"@ + joined(low, "/"@);
        assert(r =~= a + seq!['/'] + c);
        assert forall|i: int| 0 <= i < r.len() - 1 && #[trigger] r[i] == '/' implies r[i + 1]
            != '/' by {
            if i < a.len() - 1 {
                assert(a[i] == r[i]);
                assert(r[i + 1] == a[i + 1]);
            } else if i == a.len() - 1 {
                assert(r[i] == a.last());
            } else {
                assert(r[i + 1] == c[i - a.len()]);
            }
        }
    }
}

/// A normal path starts at the root, ends in a slash only where it is the
/// root, has no doubled slash, and no component of it is "." or "..".
pub proof fn law_normal_path_shape(t: Seq<char>)
    ensures
        ({
            let r = normal_path(t);
            &&& r.len() > 0
            &&& r[0] == '/'
            &&& r.last() == '/' ==> r == "/"@
            &&& forall|i: int| 0 <= i < r.len() - 1 && #[trigger] r[i] == '/' ==> r[i + 1] != '/'
            &&& r != "/"@ ==> pieces(r)[0] == ""@ && forall|i: int|
                1 <= i < pieces(r).len() ==> plain(#[trigger] pieces(r)[i])
        }),
{
    reveal_strlit("/");
    reveal_strlit("");
    assert(""@ =~= Seq::empty());
    lemma_normal_resolves(t);
    let cs = resolved(pieces(t));
    if cs.len() > 0 {
        lemma_joined_shape(cs);
        assert forall|i: int| 1 <= i < pieces(normal_path(t)).len() implies plain(
            #[trigger] pieces(normal_path(t))[i],
        ) by {
            assert(pieces(normal_path(t))[i] == cs[i - 1]);
        }
    }
}

/// The pieces of two texts with a slash between.
proof fn lemma_pieces_both(a: Seq<char>, b: Seq<char>)
    ensures
        pieces(a + seq!['/'] + b) == pieces(a) + pieces(b),
    decreases b.len(),
{
    let t = a + seq!['/'] + b;
    let none = Seq::<char>::empty();
    lemma_pieces_lack(b);
    if b.len() == 0 {
        assert(t.drop_last() =~= a);
        assert(b =~= none);
        assert(pieces(b) =~= seq![none]);
        assert(pieces(t) =~= pieces(a) + pieces(b));
    } else {
        lemma_pieces_both(a, b.drop_last());
        lemma_pieces_lack(b.drop_last());
        assert(t.drop_last() =~= a + seq!['/'] + b.drop_last());
        assert(t.last() == b.last());
        assert(pieces(t) =~= pieces(a) + pieces(b));
    }
}

/// What comes after two ways to the same place leads to the same place.
proof fn lemma_resolved_goes_on(x: Seq<Seq<char>>, y: Seq<Seq<char>>, rest: Seq<Seq<char>>)
    requires
        resolved(x) == resolved(y),
    ensures
        resolved(x + rest) == resolved(y + rest),
    decreases rest.len(),
{
    if rest.len() == 0 {
        assert(x + rest =~= x);
        assert(y + rest =~= y);
    } else {
        lemma_resolved_goes_on(x, y, rest.drop_last());
        assert((x + rest).drop_last() =~= x + rest.drop_last());
        assert((y + rest).drop_last() =~= y + rest.drop_last());
        assert((x + rest).last() == rest.last());
        assert((y + rest).last() == rest.last());
    }
}

/// A path may be normalized before something is joined to it.
pub proof fn law_normal_path_joins(a: Seq<char>, b: Seq<char>)
    ensures
        normal_path(a + "/"@ + b) == normal_path(normal_path(a) + "/"@ + b),
{
    reveal_strlit("/");
    assert("/"@ =~= seq!['/']);
    lemma_normal_resolves(a);
    lemma_pieces_both(a, b);
    lemma_pieces_both(normal_path(a), b);
    lemma_resolved_goes_on(pieces(a), pieces(normal_path(a)), pieces(b));
}

// -- replacing ---------------------------------------------------------------

/// A plan read out, each use as the text it replaces.
pub open spec fn spelled(plan: Seq<PieceView>, froms: Seq<Seq<char>>) -> Seq<char>
    decreases plan.len(),
{
    if plan.len() == 0 {
        Seq::empty()
    } else {
        spelled(plan.drop_last(), froms) + match plan.last() {
            PieceView::Lit(t) => t,
            PieceView::Use(j) => froms[j as int],
        }
    }
}

proof fn lemma_closed_run(out: Seq<PieceView>, lit: Seq<char>, froms: Seq<Seq<char>>)
    ensures
        spelled(closed_run(out, lit), froms) == spelled(out, froms) + lit,
{
    if lit.len() > 0 {
        assert(out.push(PieceView::Lit(lit)).drop_last() =~= out);
    } else {
        assert(spelled(out, froms) + lit =~= spelled(out, froms));
    }
}

proof fn lemma_plan_spells(
    froms: Seq<Seq<char>>,
    s: Seq<char>,
    i: int,
    lit: Seq<char>,
    out: Seq<PieceView>,
)
    requires
        0 <= i <= s.len() + 1,
        froms.len() <= usize::MAX,
    ensures
        spelled(plan_from(froms, s, i, lit, out), froms) == spelled(out, froms) + lit + (if i
            <= s.len() {
            s.skip(i)
        } else {
            Seq::empty()
        }),
    decreases s.len() + 1 - i,
{
    let had = spelled(out, froms);
    lemma_closed_run(out, lit, froms);
    if i > s.len() {
        assert(had + lit + Seq::<char>::empty() =~= had + lit);
    } else {
        lemma_hit(froms, s, i, 0);
        match hit(froms, s, i, 0) {
            Some(j) => {
                let f = froms[j];
                let run = closed_run(out, lit);
                let more = run.push(PieceView::Use(j as usize));
                assert(more.drop_last() =~= run);
                assert(spelled(more, froms) == had + lit + f);
                if f.len() > 0 {
                    lemma_plan_spells(froms, s, i + f.len(), Seq::empty(), more);
                    assert(s.subrange(i, i + f.len()) == f);
                    assert(had + lit + f + Seq::<char>::empty() + s.skip(i + f.len()) =~= had + lit
                        + s.skip(i)) by {
                        assert(s.skip(i) =~= f + s.skip(i + f.len()));
                    }
                } else {
                    assert(f =~= Seq::<char>::empty());
                    if i < s.len() {
                        lemma_plan_spells(froms, s, i + 1, seq![s[i]], more);
                        assert(s.skip(i) =~= seq![s[i]] + s.skip(i + 1));
                        assert(had + lit + f + seq![s[i]] + s.skip(i + 1) =~= had + lit + s.skip(
                            i,
                        ));
                    } else {
                        lemma_plan_spells(froms, s, i + 1, Seq::empty(), more);
                        assert(had + lit + f + Seq::<char>::empty() + Seq::<char>::empty() =~= had
                            + lit + s.skip(i));
                    }
                }
            },
            None => if i < s.len() {
                lemma_plan_spells(froms, s, i + 1, lit.push(s[i]), out);
                assert(had + lit.push(s[i]) + s.skip(i + 1) =~= had + lit + s.skip(i));
            } else {
                assert(had + lit + s.skip(i) =~= had + lit);
            },
        }
    }
}

/// `replaceStrings` takes nothing but the patterns out of a text and puts
/// nothing else in: its plan, read with each pattern for its replacement, is
/// the text.
pub proof fn law_a_plan_spells_the_text(froms: Seq<Seq<char>>, s: Seq<char>)
    requires
        froms.len() <= usize::MAX,
    ensures
        spelled(plan_from(froms, s, 0, Seq::empty(), Seq::empty()), froms) == s,
{
    lemma_plan_spells(froms, s, 0, Seq::empty(), Seq::empty());
    assert(spelled(Seq::empty(), froms) =~= Seq::<char>::empty());
    assert(Seq::<char>::empty() + Seq::<char>::empty() + s.skip(0) =~= s);
}

proof fn lemma_first_hit(froms: Seq<Seq<char>>, s: Seq<char>, i: int, j: int)
    requires
        0 <= j <= froms.len(),
    ensures
        hit(froms, s, i, j) is None <==> forall|q: int|
            j <= q < froms.len() ==> !stands_at(s, #[trigger] froms[q], i),
        hit(froms, s, i, j) matches Some(k) ==> j <= k < froms.len() && stands_at(s, froms[k], i)
            && forall|q: int| j <= q < k ==> !stands_at(s, #[trigger] froms[q], i),
    decreases froms.len() - j,
{
    if j < froms.len() && !stands_at(s, froms[j], i) {
        lemma_first_hit(froms, s, i, j + 1);
    }
}

/// Of the patterns that stand at a place, `replaceStrings` takes the first one
/// that is listed; where none does, the text is left as it is.
pub proof fn law_first_pattern_is_replaced(froms: Seq<Seq<char>>, s: Seq<char>)
    requires
        0 < froms.len() <= usize::MAX,
        s.len() > 0,
    ensures
        ({
            let plan = plan_from(froms, s, 0, Seq::empty(), Seq::empty());
            &&& forall|j: int|
                0 <= j < froms.len() && stands_at(s, #[trigger] froms[j], 0) && (forall|q: int|
                    0 <= q < j ==> !stands_at(s, #[trigger] froms[q], 0)) ==> plan.len() > 0
                    && plan[0] == PieceView::Use(j as usize)
            &&& (forall|i: int, j: int|
                0 <= i <= s.len() && 0 <= j < froms.len() ==> !(#[trigger] stands_at(
                    s,
                    froms[j],
                    i,
                ))) ==> plan == seq![PieceView::Lit(s)]
        }),
{
    let none = Seq::<PieceView>::empty();
    let plan = plan_from(froms, s, 0, Seq::empty(), none);
    lemma_first_hit(froms, s, 0, 0);
    assert forall|j: int|
        0 <= j < froms.len() && stands_at(s, #[trigger] froms[j], 0) && (forall|q: int|
            0 <= q < j ==> !stands_at(s, #[trigger] froms[q], 0)) implies plan.len() > 0 && plan[0]
        == PieceView::Use(j as usize) by {
        assert(hit(froms, s, 0, 0) == Some(j)) by {
            let k = hit(froms, s, 0, 0)->0;
            if k < j {
                assert(!stands_at(s, froms[k], 0));
            }
            if j < k {
                assert(!stands_at(s, froms[j], 0));
            }
        }
        let more = none.push(PieceView::Use(j as usize));
        let f = froms[j];
        if f.len() > 0 {
            lemma_plan_grows(froms, s, f.len() as int, Seq::empty(), more);
        } else {
            lemma_plan_grows(froms, s, 1, seq![s[0]], more);
        }
    }
    if forall|i: int, j: int|
        0 <= i <= s.len() && 0 <= j < froms.len() ==> !(#[trigger] stands_at(s, froms[j], i)) {
        lemma_nothing_hit(froms, s, 0);
        assert(s.take(0) =~= Seq::<char>::empty());
        assert(none.push(PieceView::Lit(s)) =~= seq![PieceView::Lit(s)]);
    }
}

/// What is planned stays planned.
proof fn lemma_plan_grows(
    froms: Seq<Seq<char>>,
    s: Seq<char>,
    i: int,
    lit: Seq<char>,
    out: Seq<PieceView>,
)
    requires
        0 <= i,
        out.len() > 0,
    ensures
        plan_from(froms, s, i, lit, out).len() > 0,
        plan_from(froms, s, i, lit, out)[0] == out[0],
    decreases s.len() + 1 - i,
{
    if i <= s.len() {
        lemma_hit(froms, s, i, 0);
        match hit(froms, s, i, 0) {
            Some(j) => {
                let more = closed_run(out, lit).push(PieceView::Use(j as usize));
                if froms[j].len() > 0 {
                    lemma_plan_grows(froms, s, i + froms[j].len(), Seq::empty(), more);
                } else if i < s.len() {
                    lemma_plan_grows(froms, s, i + 1, seq![s[i]], more);
                } else {
                    lemma_plan_grows(froms, s, i + 1, Seq::empty(), more);
                }
            },
            None => if i < s.len() {
                lemma_plan_grows(froms, s, i + 1, lit.push(s[i]), out);
            },
        }
    }
}

proof fn lemma_nothing_hit(froms: Seq<Seq<char>>, s: Seq<char>, i: int)
    requires
        0 <= i <= s.len(),
        forall|k: int, j: int|
            0 <= k <= s.len() && 0 <= j < froms.len() ==> !(#[trigger] stands_at(s, froms[j], k)),
    ensures
        plan_from(froms, s, i, s.take(i), Seq::empty()) == closed_run(Seq::empty(), s),
    decreases s.len() - i,
{
    lemma_hit(froms, s, i, 0);
    if i < s.len() {
        assert(s.take(i).push(s[i]) =~= s.take(i + 1));
        lemma_nothing_hit(froms, s, i + 1);
    } else {
        assert(s.take(i) =~= s);
    }
}

} // verus!
