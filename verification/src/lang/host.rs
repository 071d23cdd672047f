//! The evaluator's window onto the world around it.
//!
//! The machine performs no input or output: a builtin that needs a path
//! suspends and the scheduler answers. [`Host`] is what the scheduler calls.
use crate::lang::frames::FloatAsk;
use crate::lang::strings::{code, digit, digits_value, is_digit, part_number, slice_of};
use crate::text::{append_str, string_of, text_of, Text};
use vstd::prelude::*;

verus! {

/// What a path turned out to be.
#[derive(Debug, Clone, Copy, PartialEq, Eq, Structural)]
pub enum FileType {
    Regular,
    Directory,
    Symlink,
    Unknown,
}

/// The name a program sees.
pub open spec fn file_type_text(t: FileType) -> Seq<char> {
    match t {
        FileType::Regular => "regular"@,
        FileType::Directory => "directory"@,
        FileType::Symlink => "symlink"@,
        FileType::Unknown => "unknown"@,
    }
}

impl FileType {
    /// The name a program sees.
    pub fn as_str(self) -> (r: &'static str)
        ensures
            r@ == file_type_text(self),
    {
        match self {
            FileType::Regular => "regular",
            FileType::Directory => "directory",
            FileType::Symlink => "symlink",
            FileType::Unknown => "unknown",
        }
    }
}

/// The text up to its last character that is no slash.
pub open spec fn without_slashes(t: Seq<char>) -> Seq<char>
    decreases t.len(),
{
    if t.len() > 0 && t.last() == '/' {
        without_slashes(t.drop_last())
    } else {
        t
    }
}

/// The file that an import of a path reads: a directory imports its
/// `default.nix`.
pub open spec fn import_target(path: Seq<char>, kind: FileType) -> Seq<char> {
    if kind == FileType::Directory {
        without_slashes(path) + "/default.nix"@
    } else {
        path
    }
}

pub fn import_target_of(path: &str, kind: FileType) -> (r: String)
    ensures
        r@ == import_target(path@, kind),
{
    if kind != FileType::Directory {
        return path.to_owned();
    }
    let t = text_of(path);
    let mut n: usize = t.len();
    assert(t@.take(n as int) =~= t@);
    while n > 0 && t[n - 1] == '/'
        invariant
            n <= t.len(),
            without_slashes(t@.take(n as int)) == without_slashes(t@),
        decreases n,
    {
        assert(t@.take(n as int).drop_last() =~= t@.take(n - 1));
        n -= 1;
    }
    let mut out = slice_of(&t, 0, n);
    assert(out@ =~= t@.take(n as int));
    append_str(&mut out, "/default.nix");
    string_of(&out)
}

/// The answer to a floating-point question.
#[derive(Debug, Clone)]
pub enum FloatAnswer {
    /// A float, by its bit pattern.
    Float(u64),
    Int(i64),
    Bool(bool),
    Text(String),
}

/// Every question the evaluator can ask. Errors are the message text the
/// evaluator reports.
pub trait Host {
    fn read_file(&self, path: &str) -> Result<String, String>;

    fn read_dir(&self, path: &str) -> Result<Vec<(String, FileType)>, String>;

    fn path_exists(&self, path: &str) -> bool;

    fn file_type(&self, path: &str) -> Result<FileType, String>;

    /// The file an `import` of `path` actually reads, so that the directory
    /// relative paths inside it resolve against is the resolved file's
    /// parent.
    fn resolve_import(&self, path: &str) -> (r: Result<String, String>)
        default_ensures
            match r {
                Ok(s) => exists|kind: FileType| #[trigger]
                    call_ensures(Self::file_type, (self, path), Ok::<FileType, String>(kind)) && s@
                        == import_target(path@, kind),
                Err(e) => call_ensures(
                    Self::file_type,
                    (self, path),
                    Err::<FileType, String>(e),
                ),
            },
    {
        match self.file_type(path) {
            Ok(kind) => Ok(import_target_of(path, kind)),
            Err(e) => Err(e),
        }
    }

    /// An environment variable, empty where there is none.
    fn env(&self, name: &str) -> String;

    /// Floating-point work.
    fn float(&self, ask: FloatAsk) -> FloatAnswer;

    /// The float that a decimal text stands for, by its bit pattern.
    fn number(&self, digits: &str) -> u64;
}

// -- what a host may say -----------------------------------------------------

/// Whether a host may say this of a file's contents.
pub open spec fn says_contents<H: Host>(
    host: &H,
    path: Seq<char>,
    said: Result<String, String>,
) -> bool {
    exists|p: &str| p@ == path && #[trigger] call_ensures(H::read_file, (host, p), said)
}

/// Whether a host may say this of a directory's entries.
pub open spec fn says_entries<H: Host>(
    host: &H,
    path: Seq<char>,
    said: Result<Vec<(String, FileType)>, String>,
) -> bool {
    exists|p: &str| p@ == path && #[trigger] call_ensures(H::read_dir, (host, p), said)
}

/// Whether a host may say this about something being there.
pub open spec fn says_exists<H: Host>(host: &H, path: Seq<char>, said: bool) -> bool {
    exists|p: &str| p@ == path && #[trigger] call_ensures(H::path_exists, (host, p), said)
}

/// Whether a host may say this of what a path is.
pub open spec fn says_kind<H: Host>(
    host: &H,
    path: Seq<char>,
    said: Result<FileType, String>,
) -> bool {
    exists|p: &str| p@ == path && #[trigger] call_ensures(H::file_type, (host, p), said)
}

/// Whether a host may say this of the file that an import reads.
pub open spec fn says_import<H: Host>(
    host: &H,
    path: Seq<char>,
    said: Result<String, String>,
) -> bool {
    exists|p: &str| p@ == path && #[trigger] call_ensures(H::resolve_import, (host, p), said)
}

/// Whether a host may say this of an environment variable.
pub open spec fn says_env<H: Host>(host: &H, name: Seq<char>, said: String) -> bool {
    exists|n: &str| n@ == name && #[trigger] call_ensures(H::env, (host, n), said)
}

/// Whether a host may answer a floating-point question so.
pub open spec fn says_float<H: Host>(host: &H, ask: FloatAsk, said: FloatAnswer) -> bool {
    call_ensures(H::float, (host, ask), said)
}

/// Whether a host may take a decimal text for this float.
pub open spec fn says_number<H: Host>(host: &H, digits: Seq<char>, said: u64) -> bool {
    exists|d: &str| d@ == digits && #[trigger] call_ensures(H::number, (host, d), said)
}

// -- the text of floats ------------------------------------------------------

/// The text up to its last character that is not `c`.
pub open spec fn without_trailing(t: Seq<char>, c: char) -> Seq<char>
    decreases t.len(),
{
    if t.len() > 0 && t.last() == c {
        without_trailing(t.drop_last(), c)
    } else {
        t
    }
}

fn strip_trailing(t: &mut Text, c: char)
    ensures
        final(t)@ == without_trailing(old(t)@, c),
{
    while t.len() > 0 && t[t.len() - 1] == c
        invariant
            without_trailing(t@, c) == without_trailing(old(t)@, c),
        decreases t.len(),
    {
        let _ = t.pop();
    }
}

/// The first position from `i` on of a character.
pub open spec fn char_position(t: Seq<char>, c: char, i: int) -> int
    decreases t.len() - i,
{
    if i >= t.len() || t[i] == c {
        i
    } else {
        char_position(t, c, i + 1)
    }
}

fn find_char(t: &Text, c: char) -> (r: usize)
    ensures
        r == char_position(t@, c, 0),
        r <= t.len(),
{
    let mut i: usize = 0;
    while i < t.len() && t[i] != c
        invariant
            i <= t.len(),
            char_position(t@, c, i as int) == char_position(t@, c, 0),
        decreases t.len() - i,
    {
        i += 1;
    }
    i
}

/// Fixed-point digits without trailing zeros after the point.
pub open spec fn fixed_text(t: Seq<char>) -> Seq<char> {
    if t.contains('.') {
        let s = without_trailing(t, '0');
        if s.len() > 0 && s.last() == '.' {
            s.drop_last()
        } else {
            s
        }
    } else {
        t
    }
}

/// The fixed-point form of a float, given its digits to six places of
/// significance.
pub fn trim_fixed(digits: &str) -> (r: String)
    ensures
        r@ == fixed_text(digits@),
{
    let mut t = text_of(digits);
    let at = find_char(&t, '.');
    proof {
        lemma_position(t@, '.', 0);
    }
    if at < t.len() {
        strip_trailing(&mut t, '0');
        if t.len() > 0 && t[t.len() - 1] == '.' {
            let _ = t.pop();
        }
    }
    string_of(&t)
}

proof fn lemma_position(t: Seq<char>, c: char, i: int)
    requires
        0 <= i <= t.len(),
        forall|j: int| 0 <= j < i ==> t[j] != c,
    ensures
        t.contains(c) == (char_position(t, c, i) < t.len()),
    decreases t.len() - i,
{
    if i < t.len() && t[i] != c {
        lemma_position(t, c, i + 1);
    }
}

/// An exponent with its sign and at least two digits.
pub open spec fn exponent_text(e: Seq<char>) -> Seq<char> {
    let negative = e.len() > 0 && e[0] == '-';
    let d = if negative {
        e.skip(1)
    } else {
        e
    };
    (if negative {
        "-"@
    } else {
        "+"@
    }) + (if d.len() == 1 {
        "0"@ + d
    } else {
        d
    })
}

/// Scientific notation with a trimmed mantissa and a signed exponent of at
/// least two digits.
pub open spec fn scientific_text(t: Seq<char>) -> Seq<char> {
    let at = char_position(t, 'e', 0);
    if at >= t.len() {
        t
    } else {
        without_trailing(without_trailing(t.take(at), '0'), '.') + "e"@ + exponent_text(
            t.skip(at + 1),
        )
    }
}

/// The scientific form of a float, given its mantissa and exponent as
/// `m.mmmmmex`.
pub fn trim_scientific(digits: &str) -> (r: String)
    ensures
        r@ == scientific_text(digits@),
{
    let t = text_of(digits);
    let at = find_char(&t, 'e');
    if at >= t.len() {
        return digits.to_owned();
    }
    let mut out = slice_of(&t, 0, at);
    assert(out@ =~= t@.take(at as int));
    strip_trailing(&mut out, '0');
    strip_trailing(&mut out, '.');
    append_str(&mut out, "e");
    let e = slice_of(&t, at + 1, t.len());
    assert(e@ =~= t@.skip(at + 1));
    let negative = e.len() > 0 && e[0] == '-';
    let start: usize = if negative {
        1
    } else {
        0
    };
    let d = slice_of(&e, start, e.len());
    proof {
        if negative {
            assert(d@ =~= e@.skip(1));
        } else {
            assert(d@ =~= e@);
        }
    }
    append_str(
        &mut out,
        if negative {
            "-"
        } else {
            "+"
        },
    );
    if d.len() == 1 {
        append_str(&mut out, "0");
    }
    crate::text::append_all(&mut out, &d);
    assert(out@ =~= scientific_text(t@));
    string_of(&out)
}

/// The number that digits spell, with or without a minus in front. Nothing
/// where something else stands there.
pub open spec fn signed_value(e: Seq<char>) -> Option<int> {
    let negative = e.len() > 0 && e[0] == '-';
    let d = if negative {
        e.skip(1)
    } else {
        e
    };
    match part_number(d) {
        None => None,
        Some(n) => Some(
            if negative {
                -n
            } else {
                n
            },
        ),
    }
}

/// The exponent of a float in scientific notation. Nothing where there is
/// none, as in what is not a number.
pub open spec fn exponent(t: Seq<char>) -> Option<int> {
    let at = char_position(t, 'e', 0);
    if at >= t.len() {
        None
    } else {
        signed_value(t.skip(at + 1))
    }
}

/// The number that digits spell, where it has one digit, and ten where it has
/// more.
fn small_number(d: &Text) -> (r: Option<usize>)
    ensures
        match part_number(d@) {
            None => r is None,
            Some(n) => r == Some(
                if n < 10 {
                    n as usize
                } else {
                    10
                },
            ),
        },
{
    let mut v: usize = 0;
    let mut i: usize = 0;
    assert(d@.take(0) =~= Seq::empty());
    while i < d.len()
        invariant
            i <= d.len(),
            v <= 10,
            forall|j: int| 0 <= j < i ==> is_digit(#[trigger] d@[j]),
            v < 10 ==> v == digits_value(d@.take(i as int)),
            v == 10 ==> digits_value(d@.take(i as int)) >= 10,
        decreases d.len() - i,
    {
        if !digit(d[i]) {
            assert(!is_digit(d@[i as int]));
            return None;
        }
        let x = (code(d[i]) - 48) as usize;
        proof {
            assert(d@.take(i + 1).drop_last() =~= d@.take(i as int));
            assert(d@.take(i + 1).last() == d@[i as int]);
        }
        v = if v == 0 {
            x
        } else {
            10
        };
        i += 1;
    }
    assert(d@.take(d.len() as int) =~= d@);
    if d.len() == 0 {
        None
    } else {
        Some(v)
    }
}

/// How many places after the point a float has in fixed-point form, given its
/// mantissa and exponent as `m.mmmmmex`. Nothing where it is written in
/// scientific form: where six digits do not reach up to the point, or more than
/// four zeros would stand behind it.
pub fn fixed_places(digits: &str) -> (r: Option<usize>)
    ensures
        match exponent(digits@) {
            Some(e) => if -4 <= e < 6 {
                r == Some((5 - e) as usize)
            } else {
                r is None
            },
            None => r is None,
        },
{
    let t = text_of(digits);
    let at = find_char(&t, 'e');
    if at >= t.len() {
        return None;
    }
    let e = slice_of(&t, at + 1, t.len());
    assert(e@ =~= t@.skip(at + 1));
    let negative = e.len() > 0 && e[0] == '-';
    let start: usize = if negative {
        1
    } else {
        0
    };
    let d = slice_of(&e, start, e.len());
    proof {
        if negative {
            assert(d@ =~= e@.skip(1));
        } else {
            assert(d@ =~= e@);
        }
    }
    let v = match small_number(&d) {
        None => return None,
        Some(v) => v,
    };
    if negative {
        if v <= 4 {
            Some(5 + v)
        } else {
            None
        }
    } else if v < 6 {
        Some(5 - v)
    } else {
        None
    }
}

} // verus!
