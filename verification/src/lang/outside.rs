//! Builtins that rest on hash functions and regular expressions.
use crate::lang::frames::Begin;
use crate::lang::heap::{Fault, Heap, HeapView, Value};
use crate::lang::lists::Started;
use crate::lang::quote::{byte_cut, byte_cut_of, byte_len, byte_len_of};
use crate::lang::strings::is_text;
use crate::text::{append_all, append_str, copy_of, hex_chars, hex_text, string_of, text_of, Text};
use sha2::Digest;
use vstd::prelude::*;
use vstd::utf8::encode_utf8;

verus! {

// -- hashes ------------------------------------------------------------------

/// The MD5 digest of some bytes.
pub uninterp spec fn md5_bytes(data: Seq<u8>) -> Seq<u8>;

/// The SHA-1 digest of some bytes.
pub uninterp spec fn sha1_bytes(data: Seq<u8>) -> Seq<u8>;

/// The SHA-256 digest of some bytes.
pub uninterp spec fn sha256_bytes(data: Seq<u8>) -> Seq<u8>;

/// The SHA-512 digest of some bytes.
pub uninterp spec fn sha512_bytes(data: Seq<u8>) -> Seq<u8>;

/// `md5::Md5::digest`: the result is a function of the bytes alone.
#[verifier::external_body]
fn md5_digest(data: &[u8]) -> (r: Vec<u8>)
    ensures
        r@ == md5_bytes(data@),
{
    md5::Md5::digest(data)[..].to_vec()
}

/// `sha1::Sha1::digest`: the result is a function of the bytes alone.
#[verifier::external_body]
fn sha1_digest(data: &[u8]) -> (r: Vec<u8>)
    ensures
        r@ == sha1_bytes(data@),
{
    sha1::Sha1::digest(data)[..].to_vec()
}

/// `sha2::Sha256::digest`: the result is a function of the bytes alone.
#[verifier::external_body]
fn sha256_digest(data: &[u8]) -> (r: Vec<u8>)
    ensures
        r@ == sha256_bytes(data@),
{
    sha2::Sha256::digest(data)[..].to_vec()
}

/// `sha2::Sha512::digest`: the result is a function of the bytes alone.
#[verifier::external_body]
fn sha512_digest(data: &[u8]) -> (r: Vec<u8>)
    ensures
        r@ == sha512_bytes(data@),
{
    sha2::Sha512::digest(data)[..].to_vec()
}

/// The digest that an algorithm's name stands for.
pub open spec fn digest_of(algo: Seq<char>, data: Seq<u8>) -> Option<Seq<u8>> {
    if algo == "md5"@ {
        Some(md5_bytes(data))
    } else if algo == "sha1"@ {
        Some(sha1_bytes(data))
    } else if algo == "sha256"@ {
        Some(sha256_bytes(data))
    } else if algo == "sha512"@ {
        Some(sha512_bytes(data))
    } else {
        None
    }
}

fn digest_by(algo: &Text, data: &Text) -> (r: Option<Vec<u8>>)
    ensures
        match r {
            Some(d) => digest_of(algo@, encode_utf8(data@)) == Some(d@),
            None => digest_of(algo@, encode_utf8(data@)) is None,
        },
{
    let s = string_of(data);
    let bytes = s.as_str().as_bytes();
    if is_text(algo, "md5") {
        Some(md5_digest(bytes))
    } else if is_text(algo, "sha1") {
        Some(sha1_digest(bytes))
    } else if is_text(algo, "sha256") {
        Some(sha256_digest(bytes))
    } else if is_text(algo, "sha512") {
        Some(sha512_digest(bytes))
    } else {
        None
    }
}

// -- regular expressions -----------------------------------------------------

/// The texts of capture groups; a group that took no part has none.
pub open spec fn group_texts(g: Seq<Option<String>>) -> Seq<Option<Seq<char>>> {
    Seq::new(
        g.len(),
        |i: int|
            match g[i] {
                Some(s) => Some(s@),
                None => None,
            },
    )
}

/// What the first match of a pattern captures, the whole match first: nothing
/// for an invalid pattern, and nothing inside where there is no match.
pub uninterp spec fn regex_first(re: Seq<char>, s: Seq<char>) -> Option<
    Option<Seq<Option<Seq<char>>>>,
>;

/// Every match of a pattern: where the whole match lies, in bytes, and what
/// it captures. Nothing for an invalid pattern.
pub uninterp spec fn regex_every(re: Seq<char>, s: Seq<char>) -> Option<
    Seq<(Option<(usize, usize)>, Seq<Option<Seq<char>>>)>,
>;

/// `regex::Regex::new` and `Regex::captures`: the groups of the first match,
/// which are a function of the pattern and the subject alone.
#[verifier::external_body]
fn first_match(re: &str, s: &str) -> (r: Option<Option<Vec<Option<String>>>>)
    ensures
        match r {
            None => regex_first(re@, s@) is None,
            Some(None) => regex_first(re@, s@) == Some(None::<Seq<Option<Seq<char>>>>),
            Some(Some(g)) => regex_first(re@, s@) == Some(Some(group_texts(g@))),
        },
{
    let rx = regex::Regex::new(re).ok()?;
    Some(
        rx.captures(s).map(
            |c| c.iter().map(|m| m.map(|m| m.as_str().to_owned())).collect(),
        ),
    )
}

/// The model of what [`every_match`] hands back.
pub open spec fn match_texts(v: Seq<(Option<(usize, usize)>, Vec<Option<String>>)>) -> Seq<
    (Option<(usize, usize)>, Seq<Option<Seq<char>>>),
> {
    Seq::new(v.len(), |i: int| (v[i].0, group_texts(v[i].1@)))
}

/// `regex::Regex::new` and `Regex::captures_iter`: the spans and groups of
/// every match, which are a function of the pattern and the subject alone.
#[verifier::external_body]
fn every_match(re: &str, s: &str) -> (r: Option<Vec<(Option<(usize, usize)>, Vec<Option<String>>)>>)
    ensures
        match r {
            None => regex_every(re@, s@) is None,
            Some(v) => regex_every(re@, s@) == Some(match_texts(v@)),
        },
{
    let rx = regex::Regex::new(re).ok()?;
    let mut out = Vec::new();
    for c in rx.captures_iter(s) {
        let span = c.get(0).map(|m| (m.start(), m.end()));
        out.push((span, c.iter().map(|m| m.map(|m| m.as_str().to_owned())).collect()));
    }
    Some(out)
}

impl HeapView {
    pub open spec fn bi_hash_string(self, args: usize) -> Started {
        match self.arg_str(args, 0) {
            (h, Err(e)) => (h, Err(e)),
            (h, Ok(algo)) => match h.arg_str(args, 1) {
                (h, Err(e)) => (h, Err(e)),
                (h, Ok(s)) => match digest_of(h.text(algo), encode_utf8(h.text(s))) {
                    None => h.fail("unknown hash algorithm '"@ + h.text(algo) + "'"@),
                    Some(d) => {
                        let (h, v) = h.str_value(hex_text(d));
                        (h, Ok(Begin::Done(v)))
                    },
                },
            },
        }
    }

    /// A slot per captured group from group `i` on; a group that took no part
    /// is null.
    pub open spec fn group_slots_from(
        self,
        groups: Seq<Option<Seq<char>>>,
        i: int,
        out: Seq<usize>,
    ) -> (HeapView, Seq<usize>)
        decreases groups.len() - i,
    {
        if i >= groups.len() {
            (self, out)
        } else {
            let (h, s) = match groups[i] {
                Some(t) => self.str_slot(t),
                None => self.value_slot(Value::Null),
            };
            h.group_slots_from(groups, i + 1, out.push(s))
        }
    }

    /// The groups of a match as a list, without the whole match.
    pub open spec fn group_list(self, groups: Seq<Option<Seq<char>>>) -> (HeapView, Value) {
        let (h, l) = self.group_slots_from(groups, 1, Seq::empty());
        h.list_value(l)
    }

    /// The result of `match`, given what the pattern captured.
    pub open spec fn matched(
        self,
        re: Seq<char>,
        found: Option<Option<Seq<Option<Seq<char>>>>>,
    ) -> Started {
        match found {
            None => self.fail("invalid regular expression '"@ + re + "'"@),
            Some(None) => (self, Ok(Begin::Done(Value::Null))),
            Some(Some(groups)) => {
                let (h, v) = self.group_list(groups);
                (h, Ok(Begin::Done(v)))
            },
        }
    }

    pub open spec fn bi_match(self, args: usize) -> Started {
        match self.arg_str(args, 0) {
            (h, Err(e)) => (h, Err(e)),
            (h, Ok(re)) => match h.arg_str(args, 1) {
                (h, Err(e)) => (h, Err(e)),
                (h, Ok(s)) => h.matched(
                    h.text(re),
                    regex_first("(?s)\\A(?:"@ + h.text(re) + ")\\z"@, h.text(s)),
                ),
            },
        }
    }

    /// The runs between matches interleaved with the groups of each match,
    /// from match `i` on, the text having been used up to byte `last`.
    pub open spec fn split_from(
        self,
        s: Seq<char>,
        found: Seq<(Option<(usize, usize)>, Seq<Option<Seq<char>>>)>,
        i: int,
        last: int,
        out: Seq<usize>,
    ) -> (HeapView, Result<(int, Seq<usize>), Fault>)
        decreases found.len() - i,
    {
        if i >= found.len() {
            (self, Ok((last, out)))
        } else {
            match found[i].0 {
                None => self.split_from(s, found, i + 1, last, out),
                Some((start, end)) => match byte_cut(s, last, start as int) {
                    None => self.fail("internal: split cut a character in half"@),
                    Some(prefix) => {
                        let (h, p) = self.str_slot(prefix);
                        let (h, g) = h.group_list(found[i].1);
                        let (h, gs) = h.value_slot(g);
                        h.split_from(s, found, i + 1, end as int, out.push(p).push(gs))
                    },
                },
            }
        }
    }

    /// The result of `split`, given every match.
    pub open spec fn split_up(
        self,
        re: Seq<char>,
        s: Seq<char>,
        found: Option<Seq<(Option<(usize, usize)>, Seq<Option<Seq<char>>>)>>,
    ) -> Started {
        match found {
            None => self.fail("invalid regular expression '"@ + re + "'"@),
            Some(found) => match self.split_from(s, found, 0, 0, Seq::empty()) {
                (h, Err(e)) => (h, Err(e)),
                (h, Ok((last, out))) => if out.len() == 0 {
                    let (h, p) = h.str_slot(s);
                    let (h, v) = h.list_value(seq![p]);
                    (h, Ok(Begin::Done(v)))
                } else {
                    match byte_cut(s, last, byte_len(s)) {
                        None => h.fail("internal: split cut a character in half"@),
                        Some(suffix) => {
                            let (h, p) = h.str_slot(suffix);
                            let (h, v) = h.list_value(out.push(p));
                            (h, Ok(Begin::Done(v)))
                        },
                    }
                },
            },
        }
    }

    pub open spec fn bi_split(self, args: usize) -> Started {
        match self.arg_str(args, 0) {
            (h, Err(e)) => (h, Err(e)),
            (h, Ok(re)) => match h.arg_str(args, 1) {
                (h, Err(e)) => (h, Err(e)),
                (h, Ok(s)) => h.split_up(
                    h.text(re),
                    h.text(s),
                    regex_every("(?s)"@ + h.text(re), h.text(s)),
                ),
            },
        }
    }
}

impl Heap {
    pub fn bi_hash_string(&mut self, args: usize) -> (r: Result<Begin, Fault>)
        ensures
            old(self)@.bi_hash_string(args) == (final(self)@, r),
    {
        match self.arg_str(args, 0) {
            Err(e) => Err(e),
            Ok(algo) => match self.arg_str(args, 1) {
                Err(e) => Err(e),
                Ok(s) => {
                    let algo = self.text(algo);
                    match digest_by(&algo, &self.text(s)) {
                        None => self.fail_with("unknown hash algorithm '", &algo, "'"),
                        Some(d) => Ok(Begin::Done(self.str_value(hex_chars(&d)))),
                    }
                },
            },
        }
    }

    fn group_list(&mut self, groups: &Vec<Option<String>>) -> (v: Value)
        ensures
            old(self)@.group_list(group_texts(groups@)) == (final(self)@, v),
    {
        let ghost g = group_texts(groups@);
        let mut out: Vec<usize> = Vec::new();
        let mut i: usize = 1;
        while i < groups.len()
            invariant
                1 <= i,
                g == group_texts(groups@),
                self@.group_slots_from(g, i as int, out@) == old(self)@.group_slots_from(
                    g,
                    1,
                    Seq::empty(),
                ),
            decreases groups.len() - i,
        {
            assert(g[i as int] == match groups@[i as int] {
                Some(s) => Some(s@),
                None => None,
            });
            let s = match &groups[i] {
                Some(t) => self.str_slot(text_of(t.as_str())),
                None => self.value_slot(Value::Null),
            };
            out.push(s);
            i += 1;
        }
        self.list_value(out)
    }

    /// The result of `match`, given what the pattern captured.
    pub fn matched(&mut self, re: &Text, found: Option<Option<Vec<Option<String>>>>) -> (r: Result<
        Begin,
        Fault,
    >)
        ensures
            match found {
                None => old(self)@.matched(re@, None) == (final(self)@, r),
                Some(None) => old(self)@.matched(re@, Some(None)) == (final(self)@, r),
                Some(Some(g)) => old(self)@.matched(re@, Some(Some(group_texts(g@)))) == (
                    final(self)@,
                    r,
                ),
            },
    {
        match found {
            None => self.fail_with("invalid regular expression '", re, "'"),
            Some(None) => Ok(Begin::Done(Value::Null)),
            Some(Some(groups)) => Ok(Begin::Done(self.group_list(&groups))),
        }
    }

    pub fn bi_match(&mut self, args: usize) -> (r: Result<Begin, Fault>)
        ensures
            old(self)@.bi_match(args) == (final(self)@, r),
    {
        match self.arg_str(args, 0) {
            Err(e) => Err(e),
            Ok(re) => match self.arg_str(args, 1) {
                Err(e) => Err(e),
                Ok(s) => {
                    let re = self.text(re);
                    let mut anchored = text_of("(?s)\\A(?:");
                    append_all(&mut anchored, &re);
                    append_str(&mut anchored, ")\\z");
                    let s = string_of(&self.text(s));
                    let found = first_match(string_of(&anchored).as_str(), s.as_str());
                    self.matched(&re, found)
                },
            },
        }
    }

    fn split_from(
        &mut self,
        s: &Text,
        found: &Vec<(Option<(usize, usize)>, Vec<Option<String>>)>,
    ) -> (r: Result<(usize, Vec<usize>), Fault>)
        ensures
            match r {
                Ok((last, out)) => old(self)@.split_from(s@, match_texts(found@), 0, 0, Seq::empty())
                    == (final(self)@, Ok::<(int, Seq<usize>), Fault>((last as int, out@))),
                Err(e) => old(self)@.split_from(s@, match_texts(found@), 0, 0, Seq::empty()) == (
                    final(self)@,
                    Err::<(int, Seq<usize>), Fault>(e),
                ),
            },
    {
        let ghost all = match_texts(found@);
        let mut out: Vec<usize> = Vec::new();
        let mut last: usize = 0;
        let mut i: usize = 0;
        while i < found.len()
            invariant
                i <= found.len(),
                all == match_texts(found@),
                self@.split_from(s@, all, i as int, last as int, out@) == old(self)@.split_from(
                    s@,
                    all,
                    0,
                    0,
                    Seq::empty(),
                ),
            decreases found.len() - i,
        {
            assert(all[i as int] == (found@[i as int].0, group_texts(found@[i as int].1@)));
            match found[i].0 {
                None => {},
                Some((start, end)) => match byte_cut_of(s, last as u128, start as u128) {
                    None => {
                        return self.fail_str("internal: split cut a character in half");
                    },
                    Some(prefix) => {
                        let p = self.str_slot(prefix);
                        let g = self.group_list(&found[i].1);
                        let gs = self.value_slot(g);
                        out.push(p);
                        out.push(gs);
                        last = end;
                    },
                },
            }
            i += 1;
        }
        Ok((last, out))
    }

    /// The result of `split`, given every match.
    pub fn split_up(
        &mut self,
        re: &Text,
        s: &Text,
        found: Option<Vec<(Option<(usize, usize)>, Vec<Option<String>>)>>,
    ) -> (r: Result<Begin, Fault>)
        ensures
            match found {
                None => old(self)@.split_up(re@, s@, None) == (final(self)@, r),
                Some(v) => old(self)@.split_up(re@, s@, Some(match_texts(v@))) == (final(self)@, r),
            },
    {
        let found = match found {
            Some(v) => v,
            None => {
                return self.fail_with("invalid regular expression '", re, "'");
            },
        };
        let (last, mut out) = match self.split_from(s, &found) {
            Ok(r) => r,
            Err(e) => {
                return Err(e);
            },
        };
        if out.len() == 0 {
            let p = self.str_slot(copy_of(s));
            return Ok(Begin::Done(self.list_value(crate::lang::lists::one(p))));
        }
        match byte_cut_of(s, last as u128, byte_len_of(s)) {
            None => self.fail_str("internal: split cut a character in half"),
            Some(suffix) => {
                let p = self.str_slot(suffix);
                out.push(p);
                Ok(Begin::Done(self.list_value(out)))
            },
        }
    }

    pub fn bi_split(&mut self, args: usize) -> (r: Result<Begin, Fault>)
        ensures
            old(self)@.bi_split(args) == (final(self)@, r),
    {
        match self.arg_str(args, 0) {
            Err(e) => Err(e),
            Ok(re) => match self.arg_str(args, 1) {
                Err(e) => Err(e),
                Ok(s) => {
                    let re = self.text(re);
                    let s = self.text(s);
                    let mut pattern = text_of("(?s)");
                    append_all(&mut pattern, &re);
                    let found = every_match(
                        string_of(&pattern).as_str(),
                        string_of(&s).as_str(),
                    );
                    self.split_up(&re, &s, found)
                },
            },
        }
    }
}

} // verus!
