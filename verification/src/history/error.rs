//! What can go wrong deriving or lifting a view.
use crate::text::{append_str, hex_chars, hex_text, string_of, Text};
use vstd::prelude::*;

verus! {

/// The id of an object: the bytes of its hash.
pub type Id = Vec<u8>;

/// The kinds of objects.
#[derive(Debug, Clone, Copy, PartialEq, Eq, Structural)]
pub enum Kind {
    Commit,
    Tree,
    Blob,
    Tag,
}

pub open spec fn kind_text(k: Kind) -> Seq<char> {
    match k {
        Kind::Commit => "commit"@,
        Kind::Tree => "tree"@,
        Kind::Blob => "blob"@,
        Kind::Tag => "tag"@,
    }
}

impl Kind {
    pub fn as_str(self) -> (r: &'static str)
        ensures
            r@ == kind_text(self),
    {
        match self {
            Kind::Commit => "commit",
            Kind::Tree => "tree",
            Kind::Blob => "blob",
            Kind::Tag => "tag",
        }
    }
}

/// Anything that can go wrong deriving or lifting a view.
#[derive(Debug)]
pub enum Error {
    /// A spec recorded a semantics version that is not implemented here.
    ///
    /// Deriving under different rules than the ones that produced a published
    /// history moves every hash after the first difference.
    UnknownSemantics { recorded: String, known: String },
    /// A filter spec was missing a field, had an unknown field, or named an
    /// unknown value.
    BadSpec { spec: String },
    /// The filter path was not usable as a prefix.
    BadFilterPath { path: String },
    /// An object is not there.
    Find { id: Id },
    /// An object's id could not be computed.
    Hash,
    /// A commit object could not be read.
    MalformedCommit,
    /// An object was not of the kind its referrer claimed.
    WrongKind { id: Id, expected: Kind },
    /// A commit of the view could not be lifted, because one of its parents
    /// has no known position in the larger history.
    Ungrafted { id: Id },
    /// An anchor names a source commit outside the requested history.
    AnchorNotAncestor { anchor_source: Id, revision: Id },
    /// The two sides of an anchor do not describe the same filtered snapshot.
    AnchorTreeMismatch { anchor_source: Id, view: Id, source_tree: Id, view_tree: Id },
    /// A fetched anchor did not hash to the id that was expected of it.
    AnchorObjectMismatch { expected: Id, actual: Id },
    /// A history is longer than can be walked.
    TooLong,
}

/// The model of [`Error`].
pub enum ErrorView {
    UnknownSemantics { recorded: Seq<char>, known: Seq<char> },
    BadSpec { spec: Seq<char> },
    BadFilterPath { path: Seq<char> },
    Find { id: Seq<u8> },
    Hash,
    MalformedCommit,
    WrongKind { id: Seq<u8>, expected: Kind },
    Ungrafted { id: Seq<u8> },
    AnchorNotAncestor { anchor_source: Seq<u8>, revision: Seq<u8> },
    AnchorTreeMismatch {
        anchor_source: Seq<u8>,
        view: Seq<u8>,
        source_tree: Seq<u8>,
        view_tree: Seq<u8>,
    },
    AnchorObjectMismatch { expected: Seq<u8>, actual: Seq<u8> },
    TooLong,
}

impl View for Error {
    type V = ErrorView;

    open spec fn view(&self) -> ErrorView {
        match self {
            Error::UnknownSemantics { recorded, known } => ErrorView::UnknownSemantics {
                recorded: recorded@,
                known: known@,
            },
            Error::BadSpec { spec } => ErrorView::BadSpec { spec: spec@ },
            Error::BadFilterPath { path } => ErrorView::BadFilterPath { path: path@ },
            Error::Find { id } => ErrorView::Find { id: id@ },
            Error::Hash => ErrorView::Hash,
            Error::MalformedCommit => ErrorView::MalformedCommit,
            Error::WrongKind { id, expected } => ErrorView::WrongKind {
                id: id@,
                expected: *expected,
            },
            Error::Ungrafted { id } => ErrorView::Ungrafted { id: id@ },
            Error::AnchorNotAncestor { anchor_source, revision } => ErrorView::AnchorNotAncestor {
                anchor_source: anchor_source@,
                revision: revision@,
            },
            Error::AnchorTreeMismatch { anchor_source, view, source_tree, view_tree } =>
                ErrorView::AnchorTreeMismatch {
                anchor_source: anchor_source@,
                view: view@,
                source_tree: source_tree@,
                view_tree: view_tree@,
            },
            Error::AnchorObjectMismatch { expected, actual } => ErrorView::AnchorObjectMismatch {
                expected: expected@,
                actual: actual@,
            },
            Error::TooLong => ErrorView::TooLong,
        }
    }
}

/// What the `{:?}` format makes of a string: its characters between double
/// quotes, with the ones that need it escaped.
pub uninterp spec fn debug_text(s: Seq<char>) -> Seq<char>;

/// The `{:?}` format of `str`, named by [`debug_text`].
#[verifier::external_body]
fn debug_of(s: &String) -> (r: String)
    ensures
        r@ == debug_text(s@),
{
    format!("{s:?}")
}

/// An error in words.
pub open spec fn message_text(e: ErrorView) -> Seq<char> {
    match e {
        ErrorView::UnknownSemantics { recorded, known } => "filter spec records semantics version "@
            + debug_text(recorded) + ", which this build does not implement; it knows "@ + known,
        ErrorView::BadSpec { spec } => "filter spec "@ + debug_text(spec)
            + " is not one this version can read"@,
        ErrorView::BadFilterPath { path } => "filter path "@ + debug_text(path)
            + " must be relative, with no empty or dot components"@,
        ErrorView::Find { id } => "could not read object "@ + hex_text(id),
        ErrorView::Hash => "could not compute an object id"@,
        ErrorView::MalformedCommit => "commit object is malformed"@,
        ErrorView::WrongKind { id, expected } => "expected object "@ + hex_text(id) + " to be a "@
            + kind_text(expected),
        ErrorView::Ungrafted { id } => "commit "@ + hex_text(id)
            + " of the view has no counterpart in the parent repository"@,
        ErrorView::AnchorNotAncestor { anchor_source, revision } => "view anchor source "@
            + hex_text(anchor_source) + " is not an ancestor of "@ + hex_text(revision),
        ErrorView::AnchorTreeMismatch { anchor_source, view, source_tree, view_tree } =>
            "view anchor "@ + hex_text(anchor_source) + " -> "@ + hex_text(view)
            + " has different trees: filtered source "@ + hex_text(source_tree) + ", view "@
            + hex_text(view_tree),
        ErrorView::AnchorObjectMismatch { expected, actual } => "fetched view anchor hashes to "@
            + hex_text(actual) + ", expected "@ + hex_text(expected),
        ErrorView::TooLong => "history is too long to walk"@,
    }
}

fn append_id(t: &mut Text, id: &Id)
    ensures
        final(t)@ == old(t)@ + hex_text(id@),
{
    crate::text::append_all(t, &hex_chars(id));
}

impl Error {
    pub fn message(&self) -> (r: String)
        ensures
            r@ == message_text(self@),
    {
        let mut t: Text = Vec::new();
        match self {
            Error::UnknownSemantics { recorded, known } => {
                append_str(&mut t, "filter spec records semantics version ");
                append_str(&mut t, &debug_of(recorded));
                append_str(&mut t, ", which this build does not implement; it knows ");
                append_str(&mut t, known);
            },
            Error::BadSpec { spec } => {
                append_str(&mut t, "filter spec ");
                append_str(&mut t, &debug_of(spec));
                append_str(&mut t, " is not one this version can read");
            },
            Error::BadFilterPath { path } => {
                append_str(&mut t, "filter path ");
                append_str(&mut t, &debug_of(path));
                append_str(&mut t, " must be relative, with no empty or dot components");
            },
            Error::Find { id } => {
                append_str(&mut t, "could not read object ");
                append_id(&mut t, id);
            },
            Error::Hash => append_str(&mut t, "could not compute an object id"),
            Error::MalformedCommit => append_str(&mut t, "commit object is malformed"),
            Error::WrongKind { id, expected } => {
                append_str(&mut t, "expected object ");
                append_id(&mut t, id);
                append_str(&mut t, " to be a ");
                append_str(&mut t, expected.as_str());
            },
            Error::Ungrafted { id } => {
                append_str(&mut t, "commit ");
                append_id(&mut t, id);
                append_str(&mut t, " of the view has no counterpart in the parent repository");
            },
            Error::AnchorNotAncestor { anchor_source, revision } => {
                append_str(&mut t, "view anchor source ");
                append_id(&mut t, anchor_source);
                append_str(&mut t, " is not an ancestor of ");
                append_id(&mut t, revision);
            },
            Error::AnchorTreeMismatch { anchor_source, view, source_tree, view_tree } => {
                append_str(&mut t, "view anchor ");
                append_id(&mut t, anchor_source);
                append_str(&mut t, " -> ");
                append_id(&mut t, view);
                append_str(&mut t, " has different trees: filtered source ");
                append_id(&mut t, source_tree);
                append_str(&mut t, ", view ");
                append_id(&mut t, view_tree);
            },
            Error::AnchorObjectMismatch { expected, actual } => {
                append_str(&mut t, "fetched view anchor hashes to ");
                append_id(&mut t, actual);
                append_str(&mut t, ", expected ");
                append_id(&mut t, expected);
            },
            Error::TooLong => append_str(&mut t, "history is too long to walk"),
        }
        assert(t@ =~= message_text(self@));
        string_of(&t)
    }
}

} // verus!
