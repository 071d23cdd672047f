//! Turns a [`crate::prompt::jj`] or [`crate::prompt::git`] head into the one
//! line a prompt prints. One segment carries several colors, so it colors
//! itself.
use crate::prompt::git::{Counts, Head as GitHead, HeadName, Tracking};
use crate::prompt::jj::Head as JjHead;
use crate::prompt::views::View as ViewAt;
use crate::text::{append_all, append_int, append_str, int_text, string_of, text_of, Text};
use vstd::prelude::*;

verus! {

/// A terminal color.
#[derive(Debug, Clone, Copy, PartialEq, Eq, Structural)]
pub enum Hue {
    Red,
    Magenta,
}

/// How a piece of text looks.
#[derive(Debug, Clone, Copy, PartialEq, Eq, Structural)]
pub struct Look {
    pub hue: Option<Hue>,
    pub bold: bool,
    pub dimmed: bool,
}

/// The escape codes that switch a look on: effects first, then the color.
pub open spec fn look_codes(look: Look) -> Seq<char> {
    (if look.bold {
        "\x1b[1m"@
    } else {
        Seq::empty()
    }) + (if look.dimmed {
        "\x1b[2m"@
    } else {
        Seq::empty()
    }) + (match look.hue {
        None => Seq::empty(),
        Some(Hue::Red) => "\x1b[31m"@,
        Some(Hue::Magenta) => "\x1b[35m"@,
    })
}

/// `anstyle::Style::render`: the codes of the effects, bold before dimmed,
/// and then of the foreground color.
#[verifier::external_body]
fn codes(look: Look) -> (s: String)
    ensures
        s@ == look_codes(look),
{
    let fg = look.hue.map(|h| match h {
        Hue::Red => anstyle::AnsiColor::Red,
        Hue::Magenta => anstyle::AnsiColor::Magenta,
    });
    let effects = anstyle::Effects::new()
        .set(anstyle::Effects::BOLD, look.bold)
        .set(anstyle::Effects::DIMMED, look.dimmed);
    let style = anstyle::Style::new().fg_color(fg.map(anstyle::Color::Ansi)).effects(effects);
    style.render().to_string()
}

/// `anstyle::Reset::render`: the code that switches every look off.
#[verifier::external_body]
fn reset() -> (s: String)
    ensures
        s@ == "\x1b[0m"@,
{
    anstyle::Reset.render().to_string()
}

/// What a piece of text is, which decides how it looks.
#[derive(Debug, Clone, Copy, PartialEq, Eq, Structural)]
pub enum Role {
    /// Bold magenta.
    Name,
    /// Bold red.
    Counts,
    /// Dimmed.
    Muted,
}

pub open spec fn look_of(role: Role) -> Look {
    match role {
        Role::Name => Look { hue: Some(Hue::Magenta), bold: true, dimmed: false },
        Role::Counts => Look { hue: Some(Hue::Red), bold: true, dimmed: false },
        Role::Muted => Look { hue: None, bold: false, dimmed: true },
    }
}

fn role_look(role: Role) -> (l: Look)
    ensures
        l == look_of(role),
{
    match role {
        Role::Name => Look { hue: Some(Hue::Magenta), bold: true, dimmed: false },
        Role::Counts => Look { hue: Some(Hue::Red), bold: true, dimmed: false },
        Role::Muted => Look { hue: None, bold: false, dimmed: true },
    }
}

/// A text in its look, where escape codes are wanted.
pub open spec fn painted(color: bool, role: Role, t: Seq<char>) -> Seq<char> {
    if color {
        look_codes(look_of(role)) + t + "\x1b[0m"@
    } else {
        t
    }
}

/// A segment under construction: text, and whether escape codes are wanted.
struct Segment {
    text: Text,
    color: bool,
}

impl Segment {
    fn new(color: bool) -> (s: Segment)
        ensures
            s.text@ == Seq::<char>::empty(),
            s.color == color,
    {
        Segment { text: Vec::new(), color }
    }

    fn push(&mut self, role: Role, t: &Text)
        ensures
            final(self).text@ == old(self).text@ + painted(old(self).color, role, t@),
            final(self).color == old(self).color,
    {
        if self.color {
            append_str(&mut self.text, &codes(role_look(role)));
            append_all(&mut self.text, t);
            append_str(&mut self.text, &reset());
            assert(self.text@ =~= old(self).text@ + painted(old(self).color, role, t@));
        } else {
            append_all(&mut self.text, t);
        }
    }

    fn push_plain(&mut self, t: &str)
        ensures
            final(self).text@ == old(self).text@ + t@,
            final(self).color == old(self).color,
    {
        append_str(&mut self.text, t);
    }
}

/// The arrows of how far ahead and behind something is.
pub open spec fn arrows(ahead: usize, behind: usize) -> Seq<char> {
    if ahead == 0 && behind == 0 {
        Seq::empty()
    } else if behind == 0 {
        "⇡"@ + int_text(ahead as int)
    } else if ahead == 0 {
        "⇣"@ + int_text(behind as int)
    } else {
        "⇕⇡"@ + int_text(ahead as int) + "⇣"@ + int_text(behind as int)
    }
}

fn ahead_behind(ahead: usize, behind: usize) -> (t: Text)
    ensures
        t@ == arrows(ahead, behind),
{
    let mut t: Text = Vec::new();
    if ahead == 0 && behind == 0 {
        return t;
    }
    if behind == 0 {
        append_str(&mut t, "⇡");
        append_int(&mut t, ahead as i128);
    } else if ahead == 0 {
        append_str(&mut t, "⇣");
        append_int(&mut t, behind as i128);
    } else {
        append_str(&mut t, "⇕⇡");
        append_int(&mut t, ahead as i128);
        append_str(&mut t, "⇣");
        append_int(&mut t, behind as i128);
    }
    assert(t@ =~= arrows(ahead, behind));
    t
}

/// The state flags of a working copy. There is no separate dirty count: the
/// edits are already in the change, so a non-empty one is the dirty signal.
pub open spec fn jj_flags(conflict: bool, divergent: bool, empty: bool) -> Seq<char> {
    (if conflict {
        "="@
    } else {
        Seq::empty()
    }) + (if divergent {
        "??"@
    } else {
        Seq::empty()
    }) + (if !empty {
        "*"@
    } else {
        Seq::empty()
    })
}

/// The bookmark part of a jj segment.
pub open spec fn jj_bookmark(head: JjHead, color: bool) -> Seq<char> {
    match head.bookmark {
        None => Seq::empty(),
        Some(b) => " "@ + painted(color, Role::Name, b.names@) + (if b.distance > 0 {
            painted(color, Role::Muted, "+"@ + int_text(b.distance as int))
        } else {
            Seq::empty()
        }),
    }
}

/// A part that is left out where it is empty.
pub open spec fn optional(color: bool, t: Seq<char>) -> Seq<char> {
    if t.len() > 0 {
        " "@ + painted(color, Role::Counts, t)
    } else {
        Seq::empty()
    }
}

/// The view part of a jj segment: context, with the last survey's counts.
pub open spec fn jj_view(view: Option<&ViewAt>, color: bool) -> Seq<char> {
    match view {
        None => Seq::empty(),
        Some(v) => " "@ + painted(color, Role::Muted, v.name@) + (match v.counts {
            None => Seq::empty(),
            Some(c) => if arrows(c.ahead, c.behind).len() > 0 {
                painted(color, Role::Counts, arrows(c.ahead, c.behind))
            } else {
                Seq::empty()
            },
        }),
    }
}

/// The jj segment: the change id, the bookmark it descends from, the state
/// flags, and the view.
pub open spec fn jj_segment(head: JjHead, view: Option<&ViewAt>, color: bool) -> Seq<char> {
    "on "@ + painted(color, Role::Name, "\u{f15c6} "@) + painted(color, Role::Name, head.change_prefix@)
        + painted(color, Role::Muted, head.change_rest@) + jj_bookmark(head, color) + optional(
        color,
        jj_flags(head.flags.conflict, head.flags.divergent, head.flags.empty),
    ) + jj_view(view, color)
}

impl Segment {
    fn push_bookmark(&mut self, head: &JjHead)
        ensures
            final(self).text@ == old(self).text@ + jj_bookmark(*head, old(self).color),
            final(self).color == old(self).color,
    {
        if let Some(b) = &head.bookmark {
            self.push_plain(" ");
            self.push(Role::Name, &text_of(&b.names));
            if b.distance > 0 {
                let mut t = text_of("+");
                append_int(&mut t, b.distance as i128);
                self.push(Role::Muted, &t);
            }
        }
        assert(self.text@ =~= old(self).text@ + jj_bookmark(*head, old(self).color));
    }

    fn push_optional(&mut self, t: &Text)
        ensures
            final(self).text@ == old(self).text@ + optional(old(self).color, t@),
            final(self).color == old(self).color,
    {
        if t.len() > 0 {
            self.push_plain(" ");
            self.push(Role::Counts, t);
        }
        assert(self.text@ =~= old(self).text@ + optional(old(self).color, t@));
    }

    fn push_view(&mut self, view: Option<&ViewAt>)
        ensures
            final(self).text@ == old(self).text@ + jj_view(view, old(self).color),
            final(self).color == old(self).color,
    {
        if let Some(v) = view {
            self.push_plain(" ");
            self.push(Role::Muted, &text_of(&v.name));
            if let Some(c) = v.counts {
                let t = ahead_behind(c.ahead, c.behind);
                if t.len() > 0 {
                    self.push(Role::Counts, &t);
                }
            }
        }
        assert(self.text@ =~= old(self).text@ + jj_view(view, old(self).color));
    }
}

fn flags_of(head: &JjHead) -> (t: Text)
    ensures
        t@ == jj_flags(head.flags.conflict, head.flags.divergent, head.flags.empty),
{
    let mut t: Text = Vec::new();
    if head.flags.conflict {
        append_str(&mut t, "=");
    }
    if head.flags.divergent {
        append_str(&mut t, "??");
    }
    if !head.flags.empty {
        append_str(&mut t, "*");
    }
    assert(t@ =~= jj_flags(head.flags.conflict, head.flags.divergent, head.flags.empty));
    t
}

/// The jj segment of a prompt.
pub fn jj(head: &JjHead, view: Option<&ViewAt>, color: bool) -> (r: String)
    ensures
        r@ == jj_segment(*head, view, color),
{
    let mut s = Segment::new(color);
    s.push_plain("on ");
    assert(s.text@ =~= "on "@);
    s.push(Role::Name, &text_of("\u{f15c6} "));
    s.push(Role::Name, &text_of(&head.change_prefix));
    s.push(Role::Muted, &text_of(&head.change_rest));
    s.push_bookmark(head);
    s.push_optional(&flags_of(head));
    s.push_view(view);
    string_of(&s.text)
}

/// One count and its symbol, left out where there is nothing to count.
pub open spec fn counted(symbol: Seq<char>, n: usize) -> Seq<char> {
    if n > 0 {
        symbol + int_text(n as int)
    } else {
        Seq::empty()
    }
}

/// Status counts, then the arrows.
pub open spec fn git_counts(c: Counts, tracking: Option<Tracking>) -> Seq<char> {
    counted("="@, c.conflicted) + counted("✘"@, c.deleted) + counted("»"@, c.renamed) + counted(
        "!"@,
        c.modified,
    ) + counted("+"@, c.staged) + counted("?"@, c.untracked) + (match tracking {
        Some(t) => arrows(t.ahead, t.behind),
        None => Seq::empty(),
    })
}

fn count(t: &mut Text, symbol: &str, n: usize)
    ensures
        final(t)@ == old(t)@ + counted(symbol@, n),
{
    if n > 0 {
        append_str(t, symbol);
        append_int(t, n as i128);
        assert(t@ =~= old(t)@ + counted(symbol@, n));
    }
}

/// What a head is called: its branch, or its commit in parentheses.
pub open spec fn head_text(name: HeadName) -> Seq<char> {
    match name {
        HeadName::Branch(b) => b@,
        HeadName::Detached(c) => "("@ + c@ + ")"@,
    }
}

/// The git segment: the head, then the status counts and arrows.
pub open spec fn git_segment(head: GitHead, color: bool) -> Seq<char> {
    "on "@ + painted(color, Role::Name, "\u{e0a0} "@) + painted(color, Role::Name, head_text(head.name))
        + optional(color, git_counts(head.counts, head.tracking))
}

/// The git segment of a prompt.
pub fn git(head: &GitHead, color: bool) -> (r: String)
    ensures
        r@ == git_segment(*head, color),
{
    let mut s = Segment::new(color);
    s.push_plain("on ");
    assert(s.text@ =~= "on "@);
    s.push(Role::Name, &text_of("\u{e0a0} "));
    let name = match &head.name {
        HeadName::Branch(b) => text_of(b),
        HeadName::Detached(c) => {
            let mut t = text_of("(");
            append_str(&mut t, c);
            append_str(&mut t, ")");
            t
        },
    };
    s.push(Role::Name, &name);
    let mut t: Text = Vec::new();
    count(&mut t, "=", head.counts.conflicted);
    count(&mut t, "✘", head.counts.deleted);
    count(&mut t, "»", head.counts.renamed);
    count(&mut t, "!", head.counts.modified);
    count(&mut t, "+", head.counts.staged);
    count(&mut t, "?", head.counts.untracked);
    if let Some(k) = head.tracking {
        append_all(&mut t, &ahead_behind(k.ahead, k.behind));
    }
    assert(t@ =~= git_counts(head.counts, head.tracking));
    s.push_optional(&t);
    string_of(&s.text)
}

} // verus!
