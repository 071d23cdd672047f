//! Path filters and the specs that record them.
use crate::history::error::{Error, ErrorView};
use crate::lang::strings::{is_text, join_texts, joined};
use crate::launch::{is_space, space};
use crate::text::{
    append_str, fields, fields_from, fields_of, find_place, lacks, lemma_fields_cons,
    lemma_fields_one, lemma_place, lines, lines_of, part_of, place_of, string_of, text_of,
    texts_view, uncarried, Text,
};
use vstd::prelude::*;
use vstd::utf8::encode_utf8;

verus! {

/// The version of the hash affecting rules a filter follows.
///
/// Every decision that can change an output commit hash is pinned by this
/// number, and the number is recorded next to the filter.
#[derive(Debug, Clone, Copy, PartialEq, Eq, Hash, Structural)]
pub enum Semantics {
    /// The initial rules. Where a view commit has several counterparts, a
    /// lift uses the one that was learned first.
    V1,
    /// The initial rules, but a lift onto a counterpart of a parent uses that
    /// counterpart.
    V2,
}

pub open spec fn semantics_text(s: Semantics) -> Seq<char> {
    match s {
        Semantics::V1 => "1"@,
        Semantics::V2 => "2"@,
    }
}

/// Every version there is, in words.
pub open spec fn known_text() -> Seq<char> {
    semantics_text(Semantics::V1) + ", "@ + semantics_text(Semantics::V2)
}

impl Default for Semantics {
    fn default() -> (r: Semantics)
        ensures
            r == Semantics::V1,
    {
        Semantics::V1
    }
}

impl Semantics {
    /// Every version there is, as they appear in a spec.
    pub const KNOWN: [&'static str; 2] = ["1", "2"];

    /// The number as it appears in a filter spec.
    pub fn as_str(&self) -> (r: &'static str)
        ensures
            r@ == semantics_text(*self),
    {
        match self {
            Semantics::V1 => "1",
            Semantics::V2 => "2",
        }
    }

    /// Every version there is, in words.
    fn known() -> (r: String)
        ensures
            r@ == known_text(),
    {
        let mut t = text_of(Semantics::KNOWN[0]);
        append_str(&mut t, ", ");
        append_str(&mut t, Semantics::KNOWN[1]);
        string_of(&t)
    }
}

/// What to do with a commit whose filtered tree is unchanged from its
/// parents'.
#[derive(Debug, Clone, Copy, PartialEq, Eq, Hash, Structural)]
pub enum Elide {
    /// Keep every commit.
    Nothing,
    /// Drop it, unless the commit was already empty before filtering.
    ///
    /// A commit that touched only other paths is dropped. One that was empty
    /// on purpose survives, and with it the hashes of everything after it.
    Unchanged,
    /// Drop it whether or not it was already empty before filtering.
    UnchangedIncludingAlreadyEmpty,
}

pub open spec fn elide_text(e: Elide) -> Seq<char> {
    match e {
        Elide::Nothing => "nothing"@,
        Elide::Unchanged => "unchanged"@,
        Elide::UnchangedIncludingAlreadyEmpty => "including-already-empty"@,
    }
}

impl Elide {
    fn as_str(self) -> (r: &'static str)
        ensures
            r@ == elide_text(self),
    {
        match self {
            Elide::Nothing => "nothing",
            Elide::Unchanged => "unchanged",
            Elide::UnchangedIncludingAlreadyEmpty => "including-already-empty",
        }
    }
}

/// A path prefix to restrict history to, with the rules to do it by.
#[derive(Debug, Clone, PartialEq, Eq, Hash)]
pub struct Filter {
    pub components: Vec<Text>,
    pub elide: Elide,
    pub keep_trivial_merges: bool,
    pub semantics: Semantics,
}

#[verifier::ext_equal]
pub struct FilterView {
    pub components: Seq<Seq<char>>,
    pub elide: Elide,
    pub keep_trivial_merges: bool,
    pub semantics: Semantics,
}

impl View for Filter {
    type V = FilterView;

    open spec fn view(&self) -> FilterView {
        FilterView {
            components: texts_view(self.components@),
            elide: self.elide,
            keep_trivial_merges: self.keep_trivial_merges,
            semantics: self.semantics,
        }
    }
}

/// The conventional file recording which rules produced a repository's views.
pub const SPEC_FILE_NAME: &'static str = ".jj-views";

// -- paths -------------------------------------------------------------------

/// Whether a character is an ASCII control character.
pub open spec fn is_control(c: char) -> bool {
    (c as u32) < 32 || c as u32 == 127
}

/// Whether a path component names one directory and can stand in a spec.
pub open spec fn usable(part: Seq<char>) -> bool {
    &&& part.len() > 0
    &&& part != seq!['.']
    &&& part != seq!['.', '.']
    &&& forall|i: int| 0 <= i < part.len() ==> (#[trigger] part[i]) != ';' && !is_control(part[i])
}

/// A path without the slashes around it.
pub open spec fn unslashed(t: Seq<char>) -> Seq<char>
    decreases t.len(),
{
    if t.len() > 0 && t[0] == '/' {
        unslashed(t.skip(1))
    } else if t.len() > 0 && t.last() == '/' {
        unslashed(t.drop_last())
    } else {
        t
    }
}

/// The components of a path.
pub open spec fn path_parts(path: Seq<char>) -> Seq<Seq<char>> {
    fields(unslashed(path), '/')
}

pub open spec fn all_usable(parts: Seq<Seq<char>>) -> bool {
    forall|i: int| 0 <= i < parts.len() ==> usable(#[trigger] parts[i])
}

/// The filter of a path.
pub open spec fn prefix_filter(path: Seq<char>) -> Result<FilterView, ErrorView> {
    if all_usable(path_parts(path)) {
        Ok(
            FilterView {
                components: path_parts(path),
                elide: Elide::Unchanged,
                keep_trivial_merges: false,
                semantics: Semantics::V1,
            },
        )
    } else {
        Err(ErrorView::BadFilterPath { path })
    }
}

fn is_usable(part: &Text) -> (r: bool)
    ensures
        r == usable(part@),
{
    if part.len() == 0 || (part.len() == 1 && part[0] == '.') || (part.len() == 2 && part[0] == '.'
        && part[1] == '.') {
        assert(part@.len() == 1 && part@[0] == '.' ==> part@ =~= seq!['.']);
        assert(part@.len() == 2 && part@[0] == '.' && part@[1] == '.' ==> part@ =~= seq!['.', '.']);
        return false;
    }
    assert(part@ != seq!['.'] && part@ != seq!['.', '.']) by {
        assert(seq!['.'][0] == '.');
        assert(seq!['.', '.'][1] == '.');
    }
    let mut i: usize = 0;
    while i < part.len()
        invariant
            i <= part.len(),
            forall|j: int|
                0 <= j < i ==> (#[trigger] part@[j]) != ';' && !is_control(part@[j]),
        decreases part.len() - i,
    {
        let c = part[i];
        if c == ';' || (c as u32) < 32 || c as u32 == 127 {
            assert(part@[i as int] == ';' || is_control(part@[i as int]));
            return false;
        }
        i += 1;
    }
    true
}

fn without_slashes(t: &Text) -> (r: Text)
    ensures
        r@ == unslashed(t@),
{
    let mut from: usize = 0;
    assert(t@.skip(0) =~= t@);
    while from < t.len() && t[from] == '/'
        invariant
            from <= t.len(),
            unslashed(t@) == unslashed(t@.skip(from as int)),
        decreases t.len() - from,
    {
        assert(t@.skip(from as int).skip(1) =~= t@.skip(from + 1));
        from += 1;
    }
    let mut to: usize = t.len();
    assert(t@.skip(from as int) =~= t@.subrange(from as int, to as int));
    while to > from && t[to - 1] == '/'
        invariant
            from <= to <= t.len(),
            from < t.len() ==> t@[from as int] != '/',
            unslashed(t@) == unslashed(t@.subrange(from as int, to as int)),
        decreases to,
    {
        assert(t@.subrange(from as int, to as int).drop_last() =~= t@.subrange(
            from as int,
            to - 1,
        ));
        to -= 1;
    }
    part_of(t, from, to)
}

/// A filter's parsed fields so far.
pub struct Parts {
    pub semantics: Option<Semantics>,
    pub prefix: Option<Seq<char>>,
    pub elide: Option<Elide>,
    pub merges: Option<bool>,
}

/// Takes one field of a spec.
pub open spec fn field_step(p: Parts, field: Seq<char>, spec: Seq<char>) -> Result<
    Parts,
    ErrorView,
> {
    let at = place_of(field, '=', 0);
    let key = field.take(at);
    let value = field.skip(at + 1);
    let bad = ErrorView::BadSpec { spec };
    if at >= field.len() {
        Err(bad)
    } else if key == "semantics"@ {
        if value == "1"@ {
            Ok(Parts { semantics: Some(Semantics::V1), ..p })
        } else if value == "2"@ {
            Ok(Parts { semantics: Some(Semantics::V2), ..p })
        } else {
            Err(ErrorView::UnknownSemantics { recorded: value, known: known_text() })
        }
    } else if key == "prefix"@ {
        Ok(Parts { prefix: Some(value), ..p })
    } else if key == "elide"@ {
        if value == "nothing"@ {
            Ok(Parts { elide: Some(Elide::Nothing), ..p })
        } else if value == "unchanged"@ {
            Ok(Parts { elide: Some(Elide::Unchanged), ..p })
        } else if value == "including-already-empty"@ {
            Ok(Parts { elide: Some(Elide::UnchangedIncludingAlreadyEmpty), ..p })
        } else {
            Err(bad)
        }
    } else if key == "trivial-merges"@ {
        if value == "keep"@ {
            Ok(Parts { merges: Some(true), ..p })
        } else if value == "drop"@ {
            Ok(Parts { merges: Some(false), ..p })
        } else {
            Err(bad)
        }
    } else {
        Err(bad)
    }
}

/// Takes the fields of a spec from `i` on.
pub open spec fn parts_from(p: Parts, all: Seq<Seq<char>>, i: int, spec: Seq<char>) -> Result<
    Parts,
    ErrorView,
>
    decreases all.len() - i,
{
    if i >= all.len() {
        Ok(p)
    } else {
        match field_step(p, all[i], spec) {
            Ok(q) => parts_from(q, all, i + 1, spec),
            Err(e) => Err(e),
        }
    }
}

/// The filter that parsed fields describe. Every field is required.
pub open spec fn filter_of(p: Parts, spec: Seq<char>) -> Result<FilterView, ErrorView> {
    let bad = ErrorView::BadSpec { spec };
    match p.prefix {
        None => Err(bad),
        Some(path) => match prefix_filter(path) {
            Err(e) => Err(e),
            Ok(f) => match (p.semantics, p.elide, p.merges) {
                (Some(semantics), Some(elide), Some(keep_trivial_merges)) => Ok(
                    FilterView { semantics, elide, keep_trivial_merges, ..f },
                ),
                _ => Err(bad),
            },
        },
    }
}

pub open spec fn no_parts() -> Parts {
    Parts { semantics: None, prefix: None, elide: None, merges: None }
}

/// Reads a spec. Unknown fields are refused, so a spec written by a newer
/// version fails rather than being read as though the rules it names did not
/// exist.
pub open spec fn parsed_spec(spec: Seq<char>) -> Result<FilterView, ErrorView> {
    match parts_from(no_parts(), fields(spec, ';'), 0, spec) {
        Ok(p) => filter_of(p, spec),
        Err(e) => Err(e),
    }
}

pub open spec fn merges_text(keep: bool) -> Seq<char> {
    if keep {
        "keep"@
    } else {
        "drop"@
    }
}

impl FilterView {
    /// The path a filter keeps.
    pub open spec fn path(self) -> Seq<char> {
        joined(self.components, "/"@)
    }

    /// The canonical spec.
    pub open spec fn spec(self) -> Seq<char> {
        "semantics="@ + semantics_text(self.semantics) + ";prefix="@ + self.path() + ";elide="@
            + elide_text(self.elide) + ";trivial-merges="@ + merges_text(self.keep_trivial_merges)
    }

    /// Whether a filter can be made from a path.
    pub open spec fn wf(self) -> bool {
        &&& self.components.len() > 0
        &&& all_usable(self.components)
        &&& forall|i: int| 0 <= i < self.components.len() ==> lacks(#[trigger] self.components[i], '/')
    }
}

/// A filter or an error as its model.
pub open spec fn filter_result(r: Result<Filter, Error>) -> Result<FilterView, ErrorView> {
    match r {
        Ok(f) => Ok(f@),
        Err(e) => Err(e@),
    }
}

/// The parsed fields so far, as they are held.
struct Found {
    semantics: Option<Semantics>,
    prefix: Option<Text>,
    elide: Option<Elide>,
    merges: Option<bool>,
}

impl Found {
    spec fn parts(&self) -> Parts {
        Parts {
            semantics: self.semantics,
            prefix: match self.prefix {
                Some(t) => Some(t@),
                None => None,
            },
            elide: self.elide,
            merges: self.merges,
        }
    }
}

fn bad_spec(spec: &str) -> (e: Error)
    ensures
        e@ == (ErrorView::BadSpec { spec: spec@ }),
{
    Error::BadSpec { spec: spec.to_owned() }
}

fn take_field(p: &mut Found, field: &Text, spec: &str) -> (r: Result<(), Error>)
    ensures
        match r {
            Ok(_) => field_step(old(p).parts(), field@, spec@) == Ok::<Parts, ErrorView>(
                final(p).parts(),
            ),
            Err(e) => field_step(old(p).parts(), field@, spec@) == Err::<Parts, ErrorView>(e@),
        },
{
    let at = find_place(field, '=', 0);
    if at >= field.len() {
        return Err(bad_spec(spec));
    }
    let key = part_of(field, 0, at);
    let value = part_of(field, at + 1, field.len());
    assert(key@ =~= field@.take(at as int));
    assert(value@ =~= field@.skip(at + 1));
    if is_text(&key, "semantics") {
        if is_text(&value, "1") {
            p.semantics = Some(Semantics::V1);
        } else if is_text(&value, "2") {
            p.semantics = Some(Semantics::V2);
        } else {
            return Err(
                Error::UnknownSemantics {
                    recorded: string_of(&value),
                    known: Semantics::known(),
                },
            );
        }
    } else if is_text(&key, "prefix") {
        p.prefix = Some(value);
    } else if is_text(&key, "elide") {
        if is_text(&value, "nothing") {
            p.elide = Some(Elide::Nothing);
        } else if is_text(&value, "unchanged") {
            p.elide = Some(Elide::Unchanged);
        } else if is_text(&value, "including-already-empty") {
            p.elide = Some(Elide::UnchangedIncludingAlreadyEmpty);
        } else {
            return Err(bad_spec(spec));
        }
    } else if is_text(&key, "trivial-merges") {
        if is_text(&value, "keep") {
            p.merges = Some(true);
        } else if is_text(&value, "drop") {
            p.merges = Some(false);
        } else {
            return Err(bad_spec(spec));
        }
    } else {
        return Err(bad_spec(spec));
    }
    Ok(())
}

impl Filter {
    /// A filter keeping only what lives under `path`.
    ///
    /// Unchanged commits and trivial merges are dropped, which preserves the
    /// hashes of an injected history.
    pub fn prefix(path: &str) -> (r: Result<Filter, Error>)
        ensures
            filter_result(r) == prefix_filter(path@),
    {
        let components = fields_of(&without_slashes(&text_of(path)), '/');
        let ghost parts = path_parts(path@);
        let mut i: usize = 0;
        while i < components.len()
            invariant
                i <= components.len(),
                texts_view(components@) == parts,
                parts == path_parts(path@),
                forall|j: int| 0 <= j < i ==> usable(#[trigger] parts[j]),
            decreases components.len() - i,
        {
            assert(parts[i as int] == components@[i as int]@);
            if !is_usable(&components[i]) {
                return Err(Error::BadFilterPath { path: path.to_owned() });
            }
            i += 1;
        }
        Ok(
            Filter {
                components,
                elide: Elide::Unchanged,
                keep_trivial_merges: false,
                semantics: Semantics::V1,
            },
        )
    }

    /// Sets what happens to a commit whose filtered tree is unchanged.
    pub fn elide(self, elide: Elide) -> (r: Filter)
        ensures
            r@ == (FilterView { elide, ..self@ }),
    {
        Filter { elide, ..self }
    }

    /// Whether a merge whose filtered tree equals its first filtered parent's
    /// is kept.
    pub fn keep_trivial_merges(self, keep: bool) -> (r: Filter)
        ensures
            r@ == (FilterView { keep_trivial_merges: keep, ..self@ }),
    {
        Filter { keep_trivial_merges: keep, ..self }
    }

    /// Sets the semantics version.
    pub fn semantics(self, semantics: Semantics) -> (r: Filter)
        ensures
            r@ == (FilterView { semantics, ..self@ }),
    {
        Filter { semantics, ..self }
    }

    /// The path this filter keeps, as `a/b/c`.
    pub fn path(&self) -> (r: String)
        ensures
            r@ == self@.path(),
    {
        string_of(&join_texts(&self.components, &text_of("/")))
    }

    /// The canonical spec, which is recorded beside the view.
    pub fn spec(&self) -> (r: String)
        ensures
            r@ == self@.spec(),
    {
        let mut t = text_of("semantics=");
        append_str(&mut t, self.semantics.as_str());
        append_str(&mut t, ";prefix=");
        append_str(&mut t, &self.path());
        append_str(&mut t, ";elide=");
        append_str(&mut t, self.elide.as_str());
        append_str(&mut t, ";trivial-merges=");
        append_str(
            &mut t,
            if self.keep_trivial_merges {
                "keep"
            } else {
                "drop"
            },
        );
        string_of(&t)
    }

    /// Reads a filter back from its spec.
    pub fn parse(spec: &str) -> (r: Result<Filter, Error>)
        ensures
            filter_result(r) == parsed_spec(spec@),
    {
        let all = fields_of(&text_of(spec), ';');
        let mut p = Found { semantics: None, prefix: None, elide: None, merges: None };
        let mut i: usize = 0;
        while i < all.len()
            invariant
                i <= all.len(),
                texts_view(all@) == fields(spec@, ';'),
                parts_from(p.parts(), fields(spec@, ';'), i as int, spec@) == parts_from(
                    no_parts(),
                    fields(spec@, ';'),
                    0,
                    spec@,
                ),
            decreases all.len() - i,
        {
            assert(texts_view(all@)[i as int] == all@[i as int]@);
            match take_field(&mut p, &all[i], spec) {
                Ok(_) => {},
                Err(e) => return Err(e),
            }
            i += 1;
        }
        let path = match p.prefix {
            Some(t) => t,
            None => return Err(bad_spec(spec)),
        };
        let f = match Filter::prefix(&string_of(&path)) {
            Ok(f) => f,
            Err(e) => return Err(e),
        };
        match (p.semantics, p.elide, p.merges) {
            (Some(semantics), Some(elide), Some(keep_trivial_merges)) => Ok(
                Filter { semantics, elide, keep_trivial_merges, ..f },
            ),
            _ => Err(bad_spec(spec)),
        }
    }

    /// The names of the path's components as they stand in trees.
    pub fn names(&self) -> (r: Vec<Vec<u8>>)
        ensures
            names_view(r@) == component_names(self@),
    {
        let mut out: Vec<Vec<u8>> = Vec::new();
        let mut i: usize = 0;
        while i < self.components.len()
            invariant
                i <= self.components.len(),
                out@.len() == i,
                forall|j: int|
                    0 <= j < i ==> (#[trigger] out@[j])@ == encode_utf8(self@.components[j]),
            decreases self.components.len() - i,
        {
            let s = string_of(&self.components[i]);
            let bytes = s.as_str().as_bytes();
            let mut name: Vec<u8> = Vec::new();
            let mut k: usize = 0;
            while k < bytes.len()
                invariant
                    k <= bytes.len(),
                    name@ == bytes@.take(k as int),
                decreases bytes.len() - k,
            {
                name.push(bytes[k]);
                k += 1;
            }
            assert(bytes@.take(k as int) =~= bytes@);
            out.push(name);
            i += 1;
        }
        assert(names_view(out@) =~= component_names(self@));
        out
    }
}

/// Byte strings as their model.
pub open spec fn names_view(v: Seq<Vec<u8>>) -> Seq<Seq<u8>> {
    Seq::new(v.len(), |i: int| v[i]@)
}

/// The components of a filter's path as they stand in trees.
pub open spec fn component_names(f: FilterView) -> Seq<Seq<u8>> {
    Seq::new(f.components.len(), |i: int| encode_utf8(f.components[i]))
}

// -- laws --------------------------------------------------------------------

/// The first of several joined texts stands in front.
proof fn lemma_joined_front(parts: Seq<Seq<char>>, sep: Seq<char>)
    requires
        parts.len() >= 2,
    ensures
        joined(parts, sep) == parts[0] + sep + joined(parts.drop_first(), sep),
    decreases parts.len(),
{
    if parts.len() == 2 {
        assert(parts.drop_last() =~= seq![parts[0]]);
        assert(parts.drop_first() =~= seq![parts[1]]);
        assert(joined(parts.drop_last(), sep) == parts[0]);
        assert(joined(parts.drop_first(), sep) == parts[1]);
    } else {
        lemma_joined_front(parts.drop_last(), sep);
        assert(parts.drop_last().drop_first() =~= parts.drop_first().drop_last());
        assert(joined(parts, sep) =~= parts[0] + sep + joined(parts.drop_first(), sep));
    }
}

/// Components joined by slashes are found again by splitting.
proof fn lemma_joined(parts: Seq<Seq<char>>)
    requires
        parts.len() > 0,
        all_usable(parts),
        forall|i: int| 0 <= i < parts.len() ==> lacks(#[trigger] parts[i], '/'),
    ensures
        fields(joined(parts, "/"@), '/') == parts,
        lacks(joined(parts, "/"@), ';'),
        joined(parts, "/"@).len() > 0,
        joined(parts, "/"@)[0] != '/',
        joined(parts, "/"@).last() != '/',
    decreases parts.len(),
{
    reveal_strlit("/");
    assert("/"@ =~= seq!['/']);
    let t = joined(parts, "/"@);
    assert(usable(parts[0]));
    assert(usable(parts.last()));
    if parts.len() == 1 {
        lemma_fields_one(parts[0], '/');
        assert(parts =~= seq![parts[0]]);
    } else {
        let rest = parts.drop_first();
        assert forall|i: int| 0 <= i < rest.len() implies usable(#[trigger] rest[i]) && lacks(
            rest[i],
            '/',
        ) by {
            assert(rest[i] == parts[i + 1]);
            assert(usable(parts[i + 1]));
        }
        lemma_joined(rest);
        lemma_joined_front(parts, "/"@);
        lemma_fields_cons(parts[0], '/', joined(rest, "/"@));
        assert(seq![parts[0]] + rest =~= parts);
    }
}

/// What stands before and after the first `=` of a field.
proof fn lemma_field(key: Seq<char>, value: Seq<char>)
    requires
        lacks(key, '='),
    ensures
        ({
            let field = key + seq!['='] + value;
            let at = place_of(field, '=', 0);
            at == key.len() && at < field.len() && field.take(at) == key && field.skip(at + 1)
                == value
        }),
{
    let field = key + seq!['='] + value;
    lemma_place(field, '=', 0);
    let at = place_of(field, '=', 0);
    assert(field[key.len() as int] == '=');
    if at < key.len() {
        assert(field[at] == key[at]);
    }
    assert(field.take(at) =~= key);
    assert(field.skip(at + 1) =~= value);
}

proof fn lemma_words()
    ensures
        "semantics="@ == "semantics"@ + seq!['='],
        ";prefix="@ == seq![';'] + "prefix"@ + seq!['='],
        ";elide="@ == seq![';'] + "elide"@ + seq!['='],
        ";trivial-merges="@ == seq![';'] + "trivial-merges"@ + seq!['='],
        lacks("semantics"@, '=') && lacks("semantics"@, ';'),
        lacks("prefix"@, '=') && lacks("prefix"@, ';'),
        lacks("elide"@, '=') && lacks("elide"@, ';'),
        lacks("trivial-merges"@, '=') && lacks("trivial-merges"@, ';'),
        "semantics"@.len() == 9,
        "prefix"@.len() == 6,
        "elide"@.len() == 5,
        "trivial-merges"@.len() == 14,
{
    reveal_strlit("semantics=");
    reveal_strlit("semantics");
    reveal_strlit(";prefix=");
    reveal_strlit("prefix");
    reveal_strlit(";elide=");
    reveal_strlit("elide");
    reveal_strlit(";trivial-merges=");
    reveal_strlit("trivial-merges");
    assert("semantics="@ =~= "semantics"@ + seq!['=']);
    assert(";prefix="@ =~= seq![';'] + "prefix"@ + seq!['=']);
    assert(";elide="@ =~= seq![';'] + "elide"@ + seq!['=']);
    assert(";trivial-merges="@ =~= seq![';'] + "trivial-merges"@ + seq!['=']);
}

proof fn lemma_values(f: FilterView)
    ensures
        lacks(semantics_text(f.semantics), ';'),
        lacks(elide_text(f.elide), ';'),
        lacks(merges_text(f.keep_trivial_merges), ';'),
        "1"@.len() == 1 && "1"@[0] == '1',
        "2"@.len() == 1 && "2"@[0] == '2',
        "nothing"@.len() == 7,
        "unchanged"@.len() == 9,
        "including-already-empty"@.len() == 23,
        "keep"@.len() == 4 && "keep"@[0] == 'k',
        "drop"@.len() == 4 && "drop"@[0] == 'd',
{
    reveal_strlit("1");
    reveal_strlit("2");
    reveal_strlit("nothing");
    reveal_strlit("unchanged");
    reveal_strlit("including-already-empty");
    reveal_strlit("keep");
    reveal_strlit("drop");
}

/// A spec, split at its semicolons.
proof fn lemma_spec_fields(f: FilterView)
    requires
        f.wf(),
    ensures
        fields(f.spec(), ';') == seq![
            "semantics"@ + seq!['='] + semantics_text(f.semantics),
            "prefix"@ + seq!['='] + f.path(),
            "elide"@ + seq!['='] + elide_text(f.elide),
            "trivial-merges"@ + seq!['='] + merges_text(f.keep_trivial_merges),
        ],
{
    lemma_words();
    lemma_values(f);
    lemma_joined(f.components);
    let a = "semantics"@ + seq!['='] + semantics_text(f.semantics);
    let b = "prefix"@ + seq!['='] + f.path();
    let c = "elide"@ + seq!['='] + elide_text(f.elide);
    let d = "trivial-merges"@ + seq!['='] + merges_text(f.keep_trivial_merges);
    let cd = c + seq![';'] + d;
    let bcd = b + seq![';'] + cd;
    assert(f.spec() =~= a + seq![';'] + bcd);
    lemma_fields_cons(a, ';', bcd);
    lemma_fields_cons(b, ';', cd);
    lemma_fields_cons(c, ';', d);
    lemma_fields_one(d, ';');
    assert(seq![a] + (seq![b] + (seq![c] + seq![d])) =~= seq![a, b, c, d]);
}

/// A spec is read back as the filter it was written for.
pub proof fn law_spec_round_trips(f: FilterView)
    requires
        f.wf(),
    ensures
        parsed_spec(f.spec()) == Ok::<FilterView, ErrorView>(f),
{
    let spec = f.spec();
    let all = fields(spec, ';');
    lemma_spec_fields(f);
    lemma_words();
    lemma_values(f);
    lemma_joined(f.components);
    lemma_field("semantics"@, semantics_text(f.semantics));
    lemma_field("prefix"@, f.path());
    lemma_field("elide"@, elide_text(f.elide));
    lemma_field("trivial-merges"@, merges_text(f.keep_trivial_merges));
    let p0 = no_parts();
    let p1 = Parts { semantics: Some(f.semantics), ..p0 };
    let p2 = Parts { prefix: Some(f.path()), ..p1 };
    let p3 = Parts { elide: Some(f.elide), ..p2 };
    let p4 = Parts { merges: Some(f.keep_trivial_merges), ..p3 };
    assert(field_step(p0, all[0], spec) == Ok::<Parts, ErrorView>(p1));
    assert(field_step(p1, all[1], spec) == Ok::<Parts, ErrorView>(p2));
    assert(field_step(p2, all[2], spec) == Ok::<Parts, ErrorView>(p3));
    assert(field_step(p3, all[3], spec) == Ok::<Parts, ErrorView>(p4));
    reveal_with_fuel(parts_from, 5);
    assert(parts_from(p0, all, 0, spec) == Ok::<Parts, ErrorView>(p4));
    assert(unslashed(f.path()) == f.path());
    assert(path_parts(f.path()) == f.components);
}

/// The pieces between slashes hold none.
proof fn lemma_pieces(t: Seq<char>, i: int)
    requires
        0 <= i <= t.len(),
    ensures
        fields_from(t, '/', i).len() > 0,
        forall|k: int|
            0 <= k < fields_from(t, '/', i).len() ==> lacks(#[trigger] fields_from(t, '/', i)[k], '/'),
    decreases t.len() - i,
{
    lemma_place(t, '/', i);
    let n = place_of(t, '/', i);
    let all = fields_from(t, '/', i);
    if n < t.len() {
        lemma_pieces(t, n + 1);
        assert forall|k: int| 0 <= k < all.len() implies lacks(#[trigger] all[k], '/') by {
            if k > 0 {
                assert(all[k] == fields_from(t, '/', n + 1)[k - 1]);
            }
        }
    }
}

/// A filter made from a path, or read from a spec, can be written as a spec
/// that is read back.
pub proof fn law_made_filters_are_wf(t: Seq<char>)
    ensures
        prefix_filter(t) matches Ok(f) ==> f.wf(),
        parsed_spec(t) matches Ok(f) ==> f.wf(),
{
    lemma_pieces(unslashed(t), 0);
    match parts_from(no_parts(), fields(t, ';'), 0, t) {
        Ok(p) => {
            if p.prefix is Some {
                lemma_pieces(unslashed(p.prefix->0), 0);
            }
        },
        Err(_) => {},
    }
}

// -- spec files --------------------------------------------------------------

/// The explanation at the head of a spec file.
pub open spec fn spec_header() -> Seq<char> {
    "# Rules that produced the derived views in this repository. Do not\n# edit: a history published under one set of rules cannot be\n# republished under another without moving every hash.\n"@
}

/// What a spec file holds: an explanation, and the spec on a line.
pub open spec fn spec_file(f: FilterView) -> Seq<char> {
    spec_header() + f.spec() + "\n"@
}

/// A text without the white space around it.
pub open spec fn trimmed(t: Seq<char>) -> Seq<char>
    decreases t.len(),
{
    if t.len() > 0 && is_space(t[0]) {
        trimmed(t.skip(1))
    } else if t.len() > 0 && is_space(t.last()) {
        trimmed(t.drop_last())
    } else {
        t
    }
}

/// Whether a line of a spec file records nothing.
pub open spec fn is_comment(line: Seq<char>) -> bool {
    line.len() == 0 || line[0] == '#'
}

/// The filters that lines record, up to the first that cannot be read.
pub open spec fn filters_from(all: Seq<Seq<char>>, i: int, acc: Seq<FilterView>) -> Result<
    Seq<FilterView>,
    ErrorView,
>
    decreases all.len() - i,
{
    if i >= all.len() {
        Ok(acc)
    } else if is_comment(trimmed(all[i])) {
        filters_from(all, i + 1, acc)
    } else {
        match parsed_spec(trimmed(all[i])) {
            Ok(f) => filters_from(all, i + 1, acc.push(f)),
            Err(e) => Err(e),
        }
    }
}

/// The filters that a spec file records. Comment and blank lines are skipped;
/// a line that cannot be fully read is an error.
pub open spec fn recorded(body: Seq<char>) -> Result<Seq<FilterView>, ErrorView> {
    filters_from(lines(body), 0, seq![])
}

pub open spec fn filters_view(v: Seq<Filter>) -> Seq<FilterView> {
    Seq::new(v.len(), |i: int| v[i]@)
}

pub open spec fn filters_result(r: Result<Vec<Filter>, Error>) -> Result<
    Seq<FilterView>,
    ErrorView,
> {
    match r {
        Ok(v) => Ok(filters_view(v@)),
        Err(e) => Err(e@),
    }
}

fn trim(t: &Text) -> (r: Text)
    ensures
        r@ == trimmed(t@),
{
    let mut from: usize = 0;
    assert(t@.skip(0) =~= t@);
    while from < t.len() && space(t[from])
        invariant
            from <= t.len(),
            trimmed(t@) == trimmed(t@.skip(from as int)),
        decreases t.len() - from,
    {
        assert(t@.skip(from as int).skip(1) =~= t@.skip(from + 1));
        from += 1;
    }
    let mut to: usize = t.len();
    assert(t@.skip(from as int) =~= t@.subrange(from as int, to as int));
    while to > from && space(t[to - 1])
        invariant
            from <= to <= t.len(),
            from < t.len() ==> !is_space(t@[from as int]),
            trimmed(t@) == trimmed(t@.subrange(from as int, to as int)),
        decreases to,
    {
        assert(t@.subrange(from as int, to as int).drop_last() =~= t@.subrange(
            from as int,
            to - 1,
        ));
        to -= 1;
    }
    part_of(t, from, to)
}

impl Filter {
    /// What is written to a spec file for this filter.
    pub fn write_spec(&self) -> (r: String)
        ensures
            r@ == spec_file(self@),
    {
        let mut t = text_of(
            "# Rules that produced the derived views in this repository. Do not\n# edit: a history published under one set of rules cannot be\n# republished under another without moving every hash.\n",
        );
        append_str(&mut t, &self.spec());
        append_str(&mut t, "\n");
        string_of(&t)
    }

    /// The filters that the contents of a spec file record.
    pub fn read_specs(body: &str) -> (r: Result<Vec<Filter>, Error>)
        ensures
            filters_result(r) == recorded(body@),
    {
        let all = lines_of(&text_of(body));
        let mut out: Vec<Filter> = Vec::new();
        let mut i: usize = 0;
        assert(filters_view(out@) =~= seq![]);
        while i < all.len()
            invariant
                i <= all.len(),
                texts_view(all@) == lines(body@),
                filters_from(lines(body@), i as int, filters_view(out@)) == recorded(body@),
            decreases all.len() - i,
        {
            assert(texts_view(all@)[i as int] == all@[i as int]@);
            let line = trim(&all[i]);
            if !(line.len() == 0 || line[0] == '#') {
                match Filter::parse(&string_of(&line)) {
                    Ok(f) => {
                        let ghost before = filters_view(out@);
                        out.push(f);
                        assert(filters_view(out@) =~= before.push(f@));
                    },
                    Err(e) => return Err(e),
                }
            }
            i += 1;
        }
        Ok(out)
    }
}

/// The lines of the explanation at the head of a spec file.
proof fn lemma_header() -> (r: (Seq<char>, Seq<char>, Seq<char>))
    ensures
        spec_header() == r.0 + seq!['\n'] + r.1 + seq!['\n'] + r.2 + seq!['\n'],
        lacks(r.0, '\n') && lacks(r.1, '\n') && lacks(r.2, '\n'),
        r.0.len() > 0 && r.0[0] == '#' && r.0.last() == 't',
        r.1.len() > 0 && r.1[0] == '#' && r.1.last() == 'e',
        r.2.len() > 0 && r.2[0] == '#' && r.2.last() == '.',
{
    let a = "# Rules that produced the derived views in this repository. Do not"@;
    let b = "# edit: a history published under one set of rules cannot be"@;
    let c = "# republished under another without moving every hash."@;
    reveal_strlit("# Rules that produced the derived views in this repository. Do not");
    reveal_strlit("# edit: a history published under one set of rules cannot be");
    reveal_strlit("# republished under another without moving every hash.");
    reveal_strlit(
        "# Rules that produced the derived views in this repository. Do not\n# edit: a history published under one set of rules cannot be\n# republished under another without moving every hash.\n",
    );
    assert(spec_header() =~= a + seq!['\n'] + b + seq!['\n'] + c + seq!['\n']);
    (a, b, c)
}

/// A spec is one line that needs no trimming.
proof fn lemma_spec_line(f: FilterView)
    requires
        f.wf(),
    ensures
        lacks(f.spec(), '\n'),
        f.spec().len() > 0,
        f.spec()[0] == 's',
        f.spec().last() == 'p',
{
    reveal_strlit("semantics=");
    reveal_strlit(";prefix=");
    reveal_strlit(";elide=");
    reveal_strlit(";trivial-merges=");
    reveal_strlit("1");
    reveal_strlit("2");
    reveal_strlit("nothing");
    reveal_strlit("unchanged");
    reveal_strlit("including-already-empty");
    reveal_strlit("keep");
    reveal_strlit("drop");
    lemma_joined_line(f.components);
}

proof fn lemma_joined_line(parts: Seq<Seq<char>>)
    requires
        all_usable(parts),
    ensures
        lacks(joined(parts, "/"@), '\n'),
    decreases parts.len(),
{
    reveal_strlit("/");
    if parts.len() == 1 {
        assert(usable(parts[0]));
    } else if parts.len() > 1 {
        let rest = parts.drop_last();
        assert forall|i: int| 0 <= i < rest.len() implies usable(#[trigger] rest[i]) by {
            assert(rest[i] == parts[i]);
        }
        lemma_joined_line(rest);
        assert(usable(parts.last()));
    }
}

/// A spec file is read back as the one filter it was written for.
pub proof fn law_spec_file_round_trips(f: FilterView)
    requires
        f.wf(),
    ensures
        recorded(spec_file(f)) == Ok::<Seq<FilterView>, ErrorView>(seq![f]),
{
    let (a, b, c) = lemma_header();
    let d = f.spec();
    lemma_spec_line(f);
    reveal_strlit("\n");
    let body = spec_file(f);
    let last = Seq::<char>::empty();
    let t3 = d + seq!['\n'] + last;
    let t2 = c + seq!['\n'] + t3;
    let t1 = b + seq!['\n'] + t2;
    assert(body =~= a + seq!['\n'] + t1);
    lemma_fields_cons(a, '\n', t1);
    lemma_fields_cons(b, '\n', t2);
    lemma_fields_cons(c, '\n', t3);
    lemma_fields_cons(d, '\n', last);
    lemma_fields_one(last, '\n');
    assert(fields(body, '\n') =~= seq![a, b, c, d, last]);
    assert(uncarried(a) == a && uncarried(b) == b && uncarried(c) == c && uncarried(d) == d);
    assert(lines(body) =~= seq![a, b, c, d]);
    assert(trimmed(a) == a && trimmed(b) == b && trimmed(c) == c && trimmed(d) == d);
    law_spec_round_trips(f);
    let all = lines(body);
    let none = Seq::<FilterView>::empty();
    assert(filters_from(all, 4, none.push(f)) == Ok::<Seq<FilterView>, ErrorView>(none.push(f)));
    assert(filters_from(all, 3, none) == filters_from(all, 4, none.push(f)));
    assert(filters_from(all, 2, none) == filters_from(all, 3, none));
    assert(filters_from(all, 1, none) == filters_from(all, 2, none));
    assert(filters_from(all, 0, none) == filters_from(all, 1, none));
    assert(none.push(f) =~= seq![f]);
}

} // verus!
