//! Color changes no visible text.
use crate::prompt::git::{Head as GitHead, HeadName};
use crate::prompt::jj::Head as JjHead;
use crate::prompt::render::{
    arrows, counted, git_counts, git_segment, head_text, jj_bookmark, jj_flags, jj_segment,
    jj_view, look_codes, look_of, optional, painted, Role,
};
use crate::prompt::views::View as ViewAt;
use crate::text::{int_text, lacks, nat_text};
use vstd::prelude::*;

verus! {

/// The character that an escape sequence starts with.
pub const ESC: char = '\x1b';

/// A text being read: what is visible of it so far, and what may turn out to
/// be a style sequence.
#[verifier::ext_equal]
pub struct Shown {
    pub out: Seq<char>,
    pub held: Seq<char>,
}

/// One character further. A style sequence is an escape character, an opening
/// bracket, and whatever follows up to an `m`.
pub open spec fn shown_step(s: Shown, c: char) -> Shown {
    if s.held.len() == 0 {
        if c == ESC {
            Shown { out: s.out, held: seq![c] }
        } else {
            Shown { out: s.out.push(c), held: s.held }
        }
    } else if s.held.len() == 1 {
        if c == '[' {
            Shown { out: s.out, held: s.held.push(c) }
        } else if c == ESC {
            Shown { out: s.out + s.held, held: seq![c] }
        } else {
            Shown { out: (s.out + s.held).push(c), held: Seq::empty() }
        }
    } else if c == 'm' {
        Shown { out: s.out, held: Seq::empty() }
    } else {
        Shown { out: s.out, held: s.held.push(c) }
    }
}

pub open spec fn shown(s: Shown, t: Seq<char>) -> Shown
    decreases t.len(),
{
    if t.len() == 0 {
        s
    } else {
        shown_step(shown(s, t.drop_last()), t.last())
    }
}

/// A text without its style sequences.
pub open spec fn visible(t: Seq<char>) -> Seq<char> {
    let s = shown(Shown { out: Seq::empty(), held: Seq::empty() }, t);
    s.out + s.held
}

/// Whether a text adds exactly this to what is visible, wherever it stands.
spec fn shows(t: Seq<char>, seen: Seq<char>) -> bool {
    forall|out: Seq<char>|
        #![trigger shown(Shown { out, held: Seq::empty() }, t)]
        shown(Shown { out, held: Seq::empty() }, t) == (Shown {
            out: out + seen,
            held: Seq::empty(),
        })
}

proof fn lemma_shown_both(s: Shown, a: Seq<char>, b: Seq<char>)
    ensures
        shown(s, a + b) == shown(shown(s, a), b),
    decreases b.len(),
{
    if b.len() == 0 {
        assert(a + b =~= a);
    } else {
        assert((a + b).drop_last() =~= a + b.drop_last());
        lemma_shown_both(s, a, b.drop_last());
    }
}

proof fn lemma_shows_both(a: Seq<char>, x: Seq<char>, b: Seq<char>, y: Seq<char>)
    requires
        shows(a, x),
        shows(b, y),
    ensures
        shows(a + b, x + y),
{
    assert forall|out: Seq<char>|
        #![trigger shown(Shown { out, held: Seq::empty() }, a + b)]
        shown(Shown { out, held: Seq::empty() }, a + b) == (Shown {
            out: out + (x + y),
            held: Seq::empty(),
        }) by {
        lemma_shown_both(Shown { out, held: Seq::empty() }, a, b);
        assert(shown(Shown { out, held: Seq::empty() }, a) == (Shown {
            out: out + x,
            held: Seq::empty(),
        }));
        assert(shown(Shown { out: out + x, held: Seq::empty() }, b) == (Shown {
            out: out + x + y,
            held: Seq::empty(),
        }));
        assert(out + x + y =~= out + (x + y));
    }
}

/// A text without escape characters is visible as it is.
proof fn lemma_plain(t: Seq<char>)
    requires
        lacks(t, ESC),
    ensures
        shows(t, t),
    decreases t.len(),
{
    assert forall|out: Seq<char>|
        #![trigger shown(Shown { out, held: Seq::empty() }, t)]
        shown(Shown { out, held: Seq::empty() }, t) == (Shown {
            out: out + t,
            held: Seq::empty(),
        }) by {
        if t.len() == 0 {
            assert(out + t =~= out);
        } else {
            let low = t.drop_last();
            assert forall|i: int| 0 <= i < low.len() implies #[trigger] low[i] != ESC by {
                assert(low[i] == t[i]);
            }
            lemma_plain(low);
            assert(shown(Shown { out, held: Seq::empty() }, low) == (Shown {
                out: out + low,
                held: Seq::empty(),
            }));
            assert(t[t.len() - 1] != ESC);
            assert((out + low).push(t.last()) =~= out + t);
        }
    }
}

/// A style sequence is not visible.
proof fn lemma_style(t: Seq<char>)
    requires
        t.len() > 2,
        t[0] == ESC,
        t[1] == '[',
        t.last() == 'm',
        forall|i: int| 2 <= i < t.len() - 1 ==> t[i] != 'm',
    ensures
        shows(t, Seq::empty()),
{
    assert forall|out: Seq<char>|
        #![trigger shown(Shown { out, held: Seq::empty() }, t)]
        shown(Shown { out, held: Seq::empty() }, t) == (Shown {
            out: out + Seq::<char>::empty(),
            held: Seq::empty(),
        }) by {
        lemma_held(out, t, t.len() - 1);
        assert(out + Seq::<char>::empty() =~= out);
        assert(t.take(t.len() - 1) =~= t.drop_last());
    }
}

proof fn lemma_held(out: Seq<char>, t: Seq<char>, n: int)
    requires
        2 <= n < t.len(),
        t[0] == ESC,
        t[1] == '[',
        forall|i: int| 2 <= i < t.len() - 1 ==> t[i] != 'm',
    ensures
        shown(Shown { out, held: Seq::empty() }, t.take(n)) == (Shown { out, held: t.take(n) }),
    decreases n,
{
    let s = Shown { out, held: Seq::<char>::empty() };
    assert(t.take(n).drop_last() =~= t.take(n - 1));
    assert(t.take(n - 1).push(t[n - 1]) =~= t.take(n));
    if n == 2 {
        assert(t.take(0) =~= Seq::empty());
        assert(t.take(1).drop_last() =~= t.take(0));
        assert(shown(s, t.take(0)) == s);
        assert(seq![ESC] =~= t.take(1));
        assert(shown(s, t.take(1)) == (Shown { out, held: t.take(1) }));
    } else {
        lemma_held(out, t, n - 1);
    }
}

proof fn lemma_codes(role: Role)
    ensures
        shows(look_codes(look_of(role)), Seq::empty()),
        shows("\x1b[0m"@, Seq::empty()),
{
    let none = Seq::<char>::empty();
    reveal_strlit("\x1b[0m");
    reveal_strlit("\x1b[1m");
    reveal_strlit("\x1b[2m");
    reveal_strlit("\x1b[31m");
    reveal_strlit("\x1b[35m");
    lemma_style("\x1b[0m"@);
    lemma_style("\x1b[1m"@);
    lemma_style("\x1b[2m"@);
    lemma_style("\x1b[31m"@);
    lemma_style("\x1b[35m"@);
    lemma_plain(none);
    assert(none + none =~= none);
    match role {
        Role::Name => {
            lemma_shows_both("\x1b[1m"@, none, none, none);
            lemma_shows_both("\x1b[1m"@ + none, none, "\x1b[35m"@, none);
        },
        Role::Counts => {
            lemma_shows_both("\x1b[1m"@, none, none, none);
            lemma_shows_both("\x1b[1m"@ + none, none, "\x1b[31m"@, none);
        },
        Role::Muted => {
            lemma_shows_both(none, none, "\x1b[2m"@, none);
            lemma_shows_both(none + "\x1b[2m"@, none, none, none);
        },
    }
}

/// A piece in its look shows the piece.
proof fn lemma_painted(role: Role, t: Seq<char>)
    requires
        lacks(t, ESC),
    ensures
        shows(painted(true, role, t), painted(false, role, t)),
        lacks(painted(false, role, t), ESC),
{
    let none = Seq::<char>::empty();
    lemma_codes(role);
    lemma_plain(t);
    lemma_shows_both(look_codes(look_of(role)), none, t, t);
    lemma_shows_both(look_codes(look_of(role)) + t, none + t, "\x1b[0m"@, none);
    assert(none + t + none =~= t);
}

proof fn lemma_number_lacks(n: nat)
    ensures
        lacks(nat_text(n), ESC),
        lacks(int_text(n as int), ESC),
    decreases n,
{
    if n >= 10 {
        lemma_number_lacks(n / 10);
        let low = nat_text(n / 10);
        assert forall|i: int| 0 <= i < nat_text(n).len() implies #[trigger] nat_text(n)[i]
            != ESC by {
            if i < low.len() {
                assert(low[i] != ESC);
            }
        }
    }
}

proof fn lemma_lacks_both(a: Seq<char>, b: Seq<char>)
    requires
        lacks(a, ESC),
        lacks(b, ESC),
    ensures
        lacks(a + b, ESC),
{
    assert forall|i: int| 0 <= i < (a + b).len() implies #[trigger] (a + b)[i] != ESC by {
        if i < a.len() {
            assert((a + b)[i] == a[i]);
        } else {
            assert((a + b)[i] == b[i - a.len()]);
        }
    }
}

proof fn lemma_arrows_lack(ahead: usize, behind: usize)
    ensures
        lacks(arrows(ahead, behind), ESC),
{
    reveal_strlit("⇡");
    reveal_strlit("⇣");
    reveal_strlit("⇕⇡");
    lemma_number_lacks(ahead as nat);
    lemma_number_lacks(behind as nat);
    lemma_lacks_both("⇡"@, int_text(ahead as int));
    lemma_lacks_both("⇣"@, int_text(behind as int));
    lemma_lacks_both("⇕⇡"@, int_text(ahead as int));
    lemma_lacks_both("⇕⇡"@ + int_text(ahead as int), "⇣"@);
    lemma_lacks_both("⇕⇡"@ + int_text(ahead as int) + "⇣"@, int_text(behind as int));
}

/// Both ways of writing a part of a segment show the same, and the way without
/// color holds no escape character.
spec fn agrees(colored: Seq<char>, plain: Seq<char>) -> bool {
    shows(colored, plain) && lacks(plain, ESC)
}

proof fn lemma_agrees_both(a: Seq<char>, x: Seq<char>, b: Seq<char>, y: Seq<char>)
    requires
        agrees(a, x),
        agrees(b, y),
    ensures
        agrees(a + b, x + y),
{
    lemma_shows_both(a, x, b, y);
    lemma_lacks_both(x, y);
}

proof fn lemma_agrees_plain(t: Seq<char>)
    requires
        lacks(t, ESC),
    ensures
        agrees(t, t),
{
    lemma_plain(t);
}

proof fn lemma_optional(t: Seq<char>)
    requires
        lacks(t, ESC),
    ensures
        agrees(optional(true, t), optional(false, t)),
{
    reveal_strlit(" ");
    lemma_agrees_plain(" "@);
    lemma_agrees_plain(Seq::empty());
    lemma_painted(Role::Counts, t);
    lemma_agrees_both(
        " "@,
        " "@,
        painted(true, Role::Counts, t),
        painted(false, Role::Counts, t),
    );
}

proof fn lemma_bookmark(head: JjHead)
    requires
        head.bookmark is Some ==> lacks(head.bookmark->0.names@, ESC),
    ensures
        agrees(jj_bookmark(head, true), jj_bookmark(head, false)),
{
    lemma_agrees_plain(Seq::empty());
    if let Some(b) = head.bookmark {
        reveal_strlit(" ");
        reveal_strlit("+");
        let d = "+"@ + int_text(b.distance as int);
        lemma_number_lacks(b.distance as nat);
        lemma_lacks_both("+"@, int_text(b.distance as int));
        lemma_agrees_plain(" "@);
        lemma_painted(Role::Name, b.names@);
        lemma_painted(Role::Muted, d);
        let (x, y) = (painted(true, Role::Name, b.names@), painted(false, Role::Name, b.names@));
        lemma_agrees_both(" "@, " "@, x, y);
        let (p, q) = if b.distance > 0 {
            (painted(true, Role::Muted, d), painted(false, Role::Muted, d))
        } else {
            (Seq::empty(), Seq::empty())
        };
        lemma_agrees_both(" "@ + x, " "@ + y, p, q);
    }
}

proof fn lemma_view(view: Option<&ViewAt>)
    requires
        view is Some ==> lacks(view->0.name@, ESC),
    ensures
        agrees(jj_view(view, true), jj_view(view, false)),
{
    lemma_agrees_plain(Seq::empty());
    if let Some(v) = view {
        reveal_strlit(" ");
        lemma_agrees_plain(" "@);
        lemma_painted(Role::Muted, v.name@);
        let (x, y) = (painted(true, Role::Muted, v.name@), painted(false, Role::Muted, v.name@));
        lemma_agrees_both(" "@, " "@, x, y);
        let (p, q) = match v.counts {
            None => (Seq::empty(), Seq::empty()),
            Some(c) => if arrows(c.ahead, c.behind).len() > 0 {
                (
                    painted(true, Role::Counts, arrows(c.ahead, c.behind)),
                    painted(false, Role::Counts, arrows(c.ahead, c.behind)),
                )
            } else {
                (Seq::empty(), Seq::empty())
            },
        };
        if let Some(c) = v.counts {
            lemma_arrows_lack(c.ahead, c.behind);
            lemma_painted(Role::Counts, arrows(c.ahead, c.behind));
        }
        lemma_agrees_both(" "@ + x, " "@ + y, p, q);
    }
}

proof fn lemma_flags_lack(conflict: bool, divergent: bool, empty: bool)
    ensures
        lacks(jj_flags(conflict, divergent, empty), ESC),
{
    reveal_strlit("=");
    reveal_strlit("??");
    reveal_strlit("*");
}

/// What agrees is visible as it is without color.
proof fn lemma_visible(colored: Seq<char>, plain: Seq<char>)
    requires
        agrees(colored, plain),
    ensures
        visible(colored) == plain,
{
    let none = Seq::<char>::empty();
    assert(shown(Shown { out: none, held: none }, colored) == (Shown {
        out: none + plain,
        held: none,
    }));
    assert(none + plain + none =~= plain);
}

/// Color changes no visible text of a jj segment: without its style sequences
/// the colored segment is the plain one, which has no escape character.
pub proof fn law_color_changes_no_jj_text(head: JjHead, view: Option<&ViewAt>)
    requires
        lacks(head.change_prefix@, ESC),
        lacks(head.change_rest@, ESC),
        head.bookmark is Some ==> lacks(head.bookmark->0.names@, ESC),
        view is Some ==> lacks(view->0.name@, ESC),
    ensures
        visible(jj_segment(head, view, true)) == jj_segment(head, view, false),
        lacks(jj_segment(head, view, false), ESC),
{
    reveal_strlit("on ");
    reveal_strlit("\u{f15c6} ");
    let icon = "\u{f15c6} "@;
    let flags = jj_flags(head.flags.conflict, head.flags.divergent, head.flags.empty);
    lemma_agrees_plain("on "@);
    lemma_painted(Role::Name, icon);
    lemma_painted(Role::Name, head.change_prefix@);
    lemma_painted(Role::Muted, head.change_rest@);
    lemma_bookmark(head);
    lemma_flags_lack(head.flags.conflict, head.flags.divergent, head.flags.empty);
    lemma_optional(flags);
    lemma_view(view);
    let (a1, x1) = ("on "@ + painted(true, Role::Name, icon), "on "@ + painted(
        false,
        Role::Name,
        icon,
    ));
    lemma_agrees_both(
        "on "@,
        "on "@,
        painted(true, Role::Name, icon),
        painted(false, Role::Name, icon),
    );
    let (b2, y2) = (
        painted(true, Role::Name, head.change_prefix@),
        painted(false, Role::Name, head.change_prefix@),
    );
    lemma_agrees_both(a1, x1, b2, y2);
    let (b3, y3) = (
        painted(true, Role::Muted, head.change_rest@),
        painted(false, Role::Muted, head.change_rest@),
    );
    lemma_agrees_both(a1 + b2, x1 + y2, b3, y3);
    let (b4, y4) = (jj_bookmark(head, true), jj_bookmark(head, false));
    lemma_agrees_both(a1 + b2 + b3, x1 + y2 + y3, b4, y4);
    let (b5, y5) = (optional(true, flags), optional(false, flags));
    lemma_agrees_both(a1 + b2 + b3 + b4, x1 + y2 + y3 + y4, b5, y5);
    let (b6, y6) = (jj_view(view, true), jj_view(view, false));
    lemma_agrees_both(a1 + b2 + b3 + b4 + b5, x1 + y2 + y3 + y4 + y5, b6, y6);
    lemma_visible(jj_segment(head, view, true), jj_segment(head, view, false));
}

proof fn lemma_counted_lacks(symbol: Seq<char>, n: usize)
    requires
        lacks(symbol, ESC),
    ensures
        lacks(counted(symbol, n), ESC),
{
    lemma_number_lacks(n as nat);
    lemma_lacks_both(symbol, int_text(n as int));
}

/// Color changes no visible text of a git segment.
pub proof fn law_color_changes_no_git_text(head: GitHead)
    requires
        match head.name {
            HeadName::Branch(b) => lacks(b@, ESC),
            HeadName::Detached(c) => lacks(c@, ESC),
        },
    ensures
        visible(git_segment(head, true)) == git_segment(head, false),
        lacks(git_segment(head, false), ESC),
{
    reveal_strlit("on ");
    reveal_strlit("\u{e0a0} ");
    reveal_strlit("(");
    reveal_strlit(")");
    reveal_strlit("=");
    reveal_strlit("✘");
    reveal_strlit("»");
    reveal_strlit("!");
    reveal_strlit("+");
    reveal_strlit("?");
    let c = head.counts;
    let name = head_text(head.name);
    if let HeadName::Detached(d) = head.name {
        lemma_lacks_both("("@, d@);
        lemma_lacks_both("("@ + d@, ")"@);
    }
    lemma_counted_lacks("="@, c.conflicted);
    lemma_counted_lacks("✘"@, c.deleted);
    lemma_counted_lacks("»"@, c.renamed);
    lemma_counted_lacks("!"@, c.modified);
    lemma_counted_lacks("+"@, c.staged);
    lemma_counted_lacks("?"@, c.untracked);
    let n1 = counted("="@, c.conflicted) + counted("✘"@, c.deleted);
    lemma_lacks_both(counted("="@, c.conflicted), counted("✘"@, c.deleted));
    let n2 = n1 + counted("»"@, c.renamed);
    lemma_lacks_both(n1, counted("»"@, c.renamed));
    let n3 = n2 + counted("!"@, c.modified);
    lemma_lacks_both(n2, counted("!"@, c.modified));
    let n4 = n3 + counted("+"@, c.staged);
    lemma_lacks_both(n3, counted("+"@, c.staged));
    let n5 = n4 + counted("?"@, c.untracked);
    lemma_lacks_both(n4, counted("?"@, c.untracked));
    let tail = match head.tracking {
        Some(t) => arrows(t.ahead, t.behind),
        None => Seq::empty(),
    };
    if let Some(t) = head.tracking {
        lemma_arrows_lack(t.ahead, t.behind);
    }
    lemma_lacks_both(n5, tail);
    let counts = git_counts(head.counts, head.tracking);
    assert(counts == n5 + tail);
    let icon = "\u{e0a0} "@;
    lemma_agrees_plain("on "@);
    lemma_painted(Role::Name, icon);
    lemma_painted(Role::Name, name);
    lemma_optional(counts);
    let (a1, x1) = ("on "@ + painted(true, Role::Name, icon), "on "@ + painted(
        false,
        Role::Name,
        icon,
    ));
    lemma_agrees_both(
        "on "@,
        "on "@,
        painted(true, Role::Name, icon),
        painted(false, Role::Name, icon),
    );
    let (b2, y2) = (painted(true, Role::Name, name), painted(false, Role::Name, name));
    lemma_agrees_both(a1, x1, b2, y2);
    lemma_agrees_both(a1 + b2, x1 + y2, optional(true, counts), optional(false, counts));
    lemma_visible(git_segment(head, true), git_segment(head, false));
}

} // verus!
