//! Objects in memory, and the trees among them.
use crate::history::commits::{
    commit_of, hash_of, id_len, object_id, parse_commit, Commit, CommitView,
};
use crate::history::error::{Error, ErrorView, Id, Kind};
use crate::history::filter::names_view;
use crate::history::tables::{id_view, ids_view, same_id, Table};
use crate::text::{append_all, copy_of};
use vstd::prelude::*;

verus! {

// -- tree entries ------------------------------------------------------------

/// An entry of a tree.
pub struct TreeEntry {
    /// The mode as it is written, in base eight.
    pub mode: Vec<u8>,
    /// Whether the mode is that of a tree.
    pub directory: bool,
    pub name: Vec<u8>,
    pub id: Id,
}

#[verifier::ext_equal]
pub struct EntryView {
    pub mode: Seq<u8>,
    pub directory: bool,
    pub name: Seq<u8>,
    pub id: Seq<u8>,
}

impl View for TreeEntry {
    type V = EntryView;

    open spec fn view(&self) -> EntryView {
        EntryView {
            mode: self.mode@,
            directory: self.directory,
            name: self.name@,
            id: self.id@,
        }
    }
}

pub open spec fn entries_view(v: Seq<TreeEntry>) -> Seq<EntryView> {
    Seq::new(v.len(), |i: int| v[i]@)
}

/// The mode of a tree, `40000`.
pub open spec fn tree_mode() -> Seq<u8> {
    seq![52u8, 48, 48, 48, 48]
}

/// Whether a mode is one that is written today: `40000`, `100644`, `100755`,
/// `120000` or `160000`.
pub open spec fn common_mode(m: Seq<u8>) -> bool {
    ||| m == tree_mode()
    ||| m == seq![49u8, 48, 48, 54, 52, 52]
    ||| m == seq![49u8, 48, 48, 55, 53, 53]
    ||| m == seq![49u8, 50, 48, 48, 48, 48]
    ||| m == seq![49u8, 54, 48, 48, 48, 48]
}

/// Whether an entry is written the one way there is to write it.
pub open spec fn regular(e: EntryView, wide: bool) -> bool {
    &&& common_mode(e.mode)
    &&& e.directory == (e.mode == tree_mode())
    &&& forall|i: int| 0 <= i < e.name.len() ==> #[trigger] e.name[i] != 0
    &&& e.id.len() == id_len(wide)
}

pub open spec fn all_regular(es: Seq<EntryView>, wide: bool) -> bool {
    forall|i: int| 0 <= i < es.len() ==> regular(#[trigger] es[i], wide)
}

/// An entry as bytes: the mode, a space, the name, a zero and the id.
pub open spec fn entry_bytes(e: EntryView) -> Seq<u8> {
    e.mode + seq![32u8] + e.name + seq![0u8] + e.id
}

/// The first `n` entries as bytes.
pub open spec fn entries_bytes(es: Seq<EntryView>, n: int) -> Seq<u8>
    decreases n,
{
    if n <= 0 {
        seq![]
    } else {
        entries_bytes(es, n - 1) + entry_bytes(es[n - 1])
    }
}

/// A tree as bytes.
pub open spec fn tree_bytes(es: Seq<EntryView>) -> Seq<u8> {
    entries_bytes(es, es.len() as int)
}

/// The entries that `gix_object::TreeRef::from_bytes` finds. Nothing where it
/// does not find a tree.
pub uninterp spec fn tree_entries(wide: bool, data: Seq<u8>) -> Option<Seq<EntryView>>;

/// `gix_object::TreeRef::from_bytes`, named by [`tree_entries`]: the entries
/// in the order of the bytes, with each mode as `EntryMode::as_bytes` writes
/// it. Every id has the length of its hash, and entries that were written the
/// one way there is to write them are read back.
#[verifier::external_body]
pub(crate) fn decode_tree(data: &Vec<u8>, wide: bool) -> (r: Option<Vec<TreeEntry>>)
    ensures
        match r {
            Some(es) => tree_entries(wide, data@) == Some(entries_view(es@)),
            None => tree_entries(wide, data@) is None,
        },
        r is Some ==> forall|i: int|
            0 <= i < r->0@.len() ==> (#[trigger] r->0@[i]).id@.len() == id_len(wide),
        forall|es: Seq<EntryView>|
            all_regular(es, wide) && data@ == #[trigger] tree_bytes(es) ==> r is Some
                && entries_view(r->0@) == es,
{
    let hash = if wide { gix::hash::Kind::Sha256 } else { gix::hash::Kind::Sha1 };
    let tree = gix::objs::TreeRef::from_bytes(data, hash).ok()?;
    let mut buf = [0u8; 6];
    let entries = tree.entries.iter().map(|e| TreeEntry {
        mode: e.mode.as_bytes(&mut buf).to_vec(),
        directory: e.mode.is_tree(),
        name: e.filename.to_vec(),
        id: e.oid.as_bytes().to_vec(),
    });
    Some(entries.collect())
}

/// The id of the tree without entries.
pub open spec fn empty_tree(wide: bool) -> Seq<u8> {
    if wide {
        seq![
            0x6eu8, 0xf1, 0x9b, 0x41, 0x22, 0x5c, 0x53, 0x69, 0xf1, 0xc1, 0x04, 0xd4,
            0x5d, 0x8d, 0x85, 0xef, 0xa9, 0xb0, 0x57, 0xb5, 0x3b, 0x14, 0xb4, 0xb9,
            0xb9, 0x39, 0xdd, 0x74, 0xde, 0xcc, 0x53, 0x21,
        ]
    } else {
        seq![
            0x4bu8, 0x82, 0x5d, 0xc6, 0x42, 0xcb, 0x6e, 0xb9, 0xa0, 0x60, 0xe5, 0x4b,
            0xf8, 0xd6, 0x92, 0x88, 0xfb, 0xee, 0x49, 0x04,
        ]
    }
}

/// `gix_hash::ObjectId::empty_tree`: one of two ids, by the hash.
#[verifier::external_body]
pub(crate) fn empty_tree_id(wide: bool) -> (r: Id)
    ensures
        r@ == empty_tree(wide),
{
    let hash = if wide { gix::hash::Kind::Sha256 } else { gix::hash::Kind::Sha1 };
    gix::hash::ObjectId::empty_tree(hash).as_bytes().to_vec()
}

/// A tree as bytes.
pub fn encode_tree(es: &Vec<TreeEntry>) -> (r: Vec<u8>)
    ensures
        r@ == tree_bytes(entries_view(es@)),
{
    let mut out: Vec<u8> = Vec::new();
    let ghost all = entries_view(es@);
    let mut i: usize = 0;
    assert(out@ =~= entries_bytes(all, 0));
    while i < es.len()
        invariant
            i <= es.len(),
            all == entries_view(es@),
            out@ == entries_bytes(all, i as int),
        decreases es.len() - i,
    {
        let e = &es[i];
        let ghost before = out@;
        append_all(&mut out, &e.mode);
        out.push(32);
        append_all(&mut out, &e.name);
        out.push(0);
        append_all(&mut out, &e.id);
        assert(out@ =~= before + entry_bytes(all[i as int]));
        i += 1;
    }
    out
}

// -- the order of entries ----------------------------------------------------

/// The first place where two names differ, or the end of the shorter one.
pub open spec fn differ_from(a: Seq<u8>, b: Seq<u8>, i: int) -> int
    decreases a.len() - i,
{
    if i >= a.len() || i >= b.len() || a[i] != b[i] {
        i
    } else {
        differ_from(a, b, i + 1)
    }
}

/// What an entry's name has at a place. Behind its end a tree's name has a
/// slash, and any other name nothing.
pub open spec fn byte_at(e: EntryView, i: int) -> int {
    if i < e.name.len() {
        e.name[i] as int
    } else if e.directory {
        47
    } else {
        -1
    }
}

/// Whether an entry comes before another in a tree.
pub open spec fn precedes(a: EntryView, b: EntryView) -> bool {
    let k = differ_from(a.name, b.name, 0);
    byte_at(a, k) < byte_at(b, k)
}

fn comes_before(a: &TreeEntry, b: &TreeEntry) -> (r: bool)
    ensures
        r == precedes(a@, b@),
{
    let mut k: usize = 0;
    while k < a.name.len() && k < b.name.len() && a.name[k] == b.name[k]
        invariant
            k <= a.name.len(),
            k <= b.name.len(),
            differ_from(a.name@, b.name@, 0) == differ_from(a.name@, b.name@, k as int),
        decreases a.name.len() - k,
    {
        k += 1;
    }
    let x: i16 = if k < a.name.len() {
        a.name[k] as i16
    } else if a.directory {
        47
    } else {
        -1
    };
    let y: i16 = if k < b.name.len() {
        b.name[k] as i16
    } else if b.directory {
        47
    } else {
        -1
    };
    x < y
}

/// An entry put among sorted ones, behind those it does not precede.
pub open spec fn placed(sorted: Seq<EntryView>, e: EntryView) -> Seq<EntryView>
    decreases sorted.len(),
{
    if sorted.len() == 0 || !precedes(e, sorted.last()) {
        sorted.push(e)
    } else {
        placed(sorted.drop_last(), e).push(sorted.last())
    }
}

/// Entries in the order of a tree; equal ones keep their order.
pub open spec fn in_tree_order(es: Seq<EntryView>) -> Seq<EntryView>
    decreases es.len(),
{
    if es.len() == 0 {
        es
    } else {
        placed(in_tree_order(es.drop_last()), es.last())
    }
}

fn place(sorted: &mut Vec<TreeEntry>, e: TreeEntry)
    ensures
        entries_view(final(sorted)@) == placed(entries_view(old(sorted)@), e@),
{
    let mut p: usize = sorted.len();
    let ghost all = entries_view(sorted@);
    assert(all.take(p as int) =~= all);
    assert(all.skip(p as int) =~= seq![]);
    assert(placed(all, e@) =~= placed(all.take(p as int), e@) + all.skip(p as int));
    while p > 0 && comes_before(&e, &sorted[p - 1])
        invariant
            p <= sorted.len(),
            all == entries_view(sorted@),
            placed(all, e@) == placed(all.take(p as int), e@) + all.skip(p as int),
        decreases p,
    {
        assert(all.take(p as int).last() == sorted@[p - 1]@);
        assert(all.take(p as int).drop_last() =~= all.take(p - 1));
        assert(placed(all.take(p - 1), e@).push(all[p - 1]) + all.skip(p as int) =~= placed(
            all.take(p - 1),
            e@,
        ) + all.skip(p - 1));
        p -= 1;
    }
    proof {
        if p > 0 {
            assert(all.take(p as int).last() == sorted@[p - 1]@);
        }
    }
    let ghost before = sorted@;
    sorted.insert(p, e);
    assert(entries_view(sorted@) =~= all.take(p as int).push(e@) + all.skip(p as int));
}

fn sort_entries(es: Vec<TreeEntry>) -> (r: Vec<TreeEntry>)
    ensures
        entries_view(r@) == in_tree_order(entries_view(es@)),
{
    let mut rest = es;
    let mut out: Vec<TreeEntry> = Vec::new();
    let ghost all = entries_view(es@);
    let ghost mut n: int = 0;
    assert(entries_view(out@) =~= in_tree_order(all.take(0)));
    assert(entries_view(rest@) =~= all.skip(0));
    while rest.len() > 0
        invariant
            0 <= n <= all.len(),
            entries_view(rest@) == all.skip(n),
            entries_view(out@) == in_tree_order(all.take(n)),
        decreases rest.len(),
    {
        let ghost left = entries_view(rest@);
        let e = rest.remove(0);
        proof {
            assert(e@ == left[0]);
            assert(entries_view(rest@) =~= left.skip(1));
            assert(all.skip(n).skip(1) =~= all.skip(n + 1));
            assert(all.take(n + 1).drop_last() =~= all.take(n));
        }
        place(&mut out, e);
        proof {
            n = n + 1;
        }
    }
    assert(all.take(n) =~= all);
    out
}

// -- the store ---------------------------------------------------------------

/// An object.
pub struct Object {
    pub kind: Kind,
    pub data: Vec<u8>,
}

#[verifier::ext_equal]
pub struct ObjectView {
    pub kind: Kind,
    pub data: Seq<u8>,
}

pub open spec fn object_view(o: Object) -> ObjectView {
    ObjectView { kind: o.kind, data: o.data@ }
}

/// Objects by their ids, and which of them were made here.
pub struct Store {
    /// Whether ids are SHA-256 hashes rather than SHA-1 ones.
    pub wide: bool,
    pub objects: Table<Object>,
    /// The ids of the objects that were written, in order.
    pub written: Vec<Id>,
}

#[verifier::ext_equal]
pub struct StoreView {
    pub wide: bool,
    pub objects: Map<Seq<u8>, ObjectView>,
    pub written: Seq<Seq<u8>>,
}

impl View for Store {
    type V = StoreView;

    open spec fn view(&self) -> StoreView {
        StoreView {
            wide: self.wide,
            objects: self.objects@.map_values(|o: Object| object_view(o)),
            written: ids_view(self.written@),
        }
    }
}

/// A result as its model.
pub open spec fn id_result(r: Result<Id, Error>) -> Result<Seq<u8>, ErrorView> {
    match r {
        Ok(id) => Ok(id@),
        Err(e) => Err(e@),
    }
}

pub open spec fn option_result(r: Result<Option<Id>, Error>) -> Result<
    Option<Seq<u8>>,
    ErrorView,
> {
    match r {
        Ok(id) => Ok(id_view(id)),
        Err(e) => Err(e@),
    }
}

impl StoreView {
    /// An object comes to be there. One that is there stays as it is.
    pub open spec fn added(self, id: Seq<u8>, kind: Kind, data: Seq<u8>) -> StoreView {
        if self.objects.dom().contains(id) {
            self
        } else {
            StoreView { objects: self.objects.insert(id, ObjectView { kind, data }), ..self }
        }
    }

    /// An object is written.
    pub open spec fn write(self, kind: Kind, data: Seq<u8>) -> (
        StoreView,
        Result<Seq<u8>, ErrorView>,
    ) {
        match object_id(self.wide, kind, data) {
            None => (self, Err(ErrorView::Hash)),
            Some(id) => (
                StoreView { written: self.written.push(id), ..self.added(id, kind, data) },
                Ok(id),
            ),
        }
    }

    /// The bytes of a commit.
    pub open spec fn read_commit(self, id: Seq<u8>) -> Result<Seq<u8>, ErrorView> {
        if !self.objects.dom().contains(id) {
            Err(ErrorView::Find { id })
        } else if self.objects[id].kind != Kind::Commit {
            Err(ErrorView::WrongKind { id, expected: Kind::Commit })
        } else {
            Ok(self.objects[id].data)
        }
    }

    /// What a commit says.
    pub open spec fn commit(self, id: Seq<u8>) -> Result<CommitView, ErrorView> {
        match self.read_commit(id) {
            Err(e) => Err(e),
            Ok(raw) => match commit_of(raw, self.wide) {
                Some(c) => Ok(c),
                None => Err(ErrorView::MalformedCommit),
            },
        }
    }

    /// The tree of a commit.
    pub open spec fn commit_tree(self, id: Seq<u8>) -> Result<Seq<u8>, ErrorView> {
        match self.commit(id) {
            Ok(c) => Ok(c.tree),
            Err(e) => Err(e),
        }
    }

    /// The entries of a tree. The empty tree need not be there.
    pub open spec fn entries(self, tree: Seq<u8>) -> Result<Seq<EntryView>, ErrorView> {
        if tree == empty_tree(self.wide) {
            Ok(seq![])
        } else if !self.objects.dom().contains(tree) {
            Err(ErrorView::Find { id: tree })
        } else {
            match tree_entries(self.wide, self.objects[tree].data) {
                Some(es) => Ok(es),
                None => Err(ErrorView::WrongKind { id: tree, expected: Kind::Tree }),
            }
        }
    }

    /// The directory that a tree has under a name. A name that stands for
    /// anything else counts as absent.
    pub open spec fn child(self, tree: Seq<u8>, name: Seq<u8>) -> Result<
        Option<Seq<u8>>,
        ErrorView,
    > {
        match self.entries(tree) {
            Err(e) => Err(e),
            Ok(es) => {
                let at = entry_from(es, name, 0);
                if at < es.len() && es[at].directory {
                    Ok(Some(es[at].id))
                } else {
                    Ok(None)
                }
            },
        }
    }

    /// The tree at a path, from its `i`th component on.
    pub open spec fn subtree(self, tree: Seq<u8>, names: Seq<Seq<u8>>, i: int) -> Result<
        Option<Seq<u8>>,
        ErrorView,
    >
        decreases names.len() - i,
    {
        if i >= names.len() {
            Ok(Some(tree))
        } else {
            match self.child(tree, names[i]) {
                Err(e) => Err(e),
                Ok(None) => Ok(None),
                Ok(Some(next)) => self.subtree(next, names, i + 1),
            }
        }
    }
}

/// The first entry from `i` on with this name, or the end.
pub open spec fn entry_from(es: Seq<EntryView>, name: Seq<u8>, i: int) -> int
    decreases es.len() - i,
{
    if i >= es.len() || es[i].name == name {
        i
    } else {
        entry_from(es, name, i + 1)
    }
}

/// The place of the first entry with a name.
pub fn find_entry(es: &Vec<TreeEntry>, name: &Vec<u8>) -> (r: usize)
    ensures
        r == entry_from(entries_view(es@), name@, 0),
        r <= es.len(),
{
    let ghost all = entries_view(es@);
    let mut i: usize = 0;
    while i < es.len() && !same_id(&es[i].name, name)
        invariant
            i <= es.len(),
            all == entries_view(es@),
            entry_from(all, name@, 0) == entry_from(all, name@, i as int),
        decreases es.len() - i,
    {
        assert(all[i as int].name == es@[i as int].name@);
        i += 1;
    }
    proof {
        if i < es.len() {
            assert(all[i as int].name == es@[i as int].name@);
        }
    }
    i
}

impl Store {
    pub fn new(wide: bool) -> (r: Store)
        ensures
            r@.wide == wide,
            r@.objects == Map::<Seq<u8>, ObjectView>::empty(),
            r@.written == Seq::<Seq<u8>>::empty(),
    {
        let r = Store { wide, objects: Table::new(), written: Vec::new() };
        assert(r@.objects =~= Map::<Seq<u8>, ObjectView>::empty());
        assert(r@.written =~= Seq::<Seq<u8>>::empty());
        r
    }

    /// Takes an object as a repository holds it under its id.
    pub fn add(&mut self, id: Id, kind: Kind, data: Vec<u8>)
        ensures
            final(self)@ == old(self)@.added(id@, kind, data@),
    {
        let ghost key = id@;
        let o = Object { kind, data };
        if !self.objects.has(&id) {
            self.objects.put(id, o);
            assert(self@.objects =~= old(self)@.objects.insert(key, object_view(o)));
        }
    }

    /// Makes an object and tells its id.
    pub fn write(&mut self, kind: Kind, data: Vec<u8>) -> (r: Result<Id, Error>)
        ensures
            (final(self)@, id_result(r)) == old(self)@.write(kind, data@),
            r is Ok ==> r->Ok_0@.len() == id_len(old(self)@.wide),
    {
        match hash_of(self.wide, kind, &data) {
            None => Err(Error::Hash),
            Some(id) => {
                self.add(copy_of(&id), kind, data);
                let ghost before = self.written@;
                self.written.push(copy_of(&id));
                assert(ids_view(self.written@) =~= ids_view(before).push(id@));
                Ok(id)
            },
        }
    }

    pub fn read_commit(&self, id: &Id) -> (r: Result<&Vec<u8>, Error>)
        ensures
            match r {
                Ok(raw) => self@.read_commit(id@) == Ok::<Seq<u8>, ErrorView>(raw@),
                Err(e) => self@.read_commit(id@) == Err::<Seq<u8>, ErrorView>(e@),
            },
    {
        match self.objects.get(id) {
            None => Err(Error::Find { id: copy_of(id) }),
            Some(o) => {
                if o.kind != Kind::Commit {
                    return Err(Error::WrongKind { id: copy_of(id), expected: Kind::Commit });
                }
                Ok(&o.data)
            },
        }
    }

    pub fn commit(&self, id: &Id) -> (r: Result<Commit, Error>)
        ensures
            match r {
                Ok(c) => self@.commit(id@) == Ok::<CommitView, ErrorView>(c@),
                Err(e) => self@.commit(id@) == Err::<CommitView, ErrorView>(e@),
            },
    {
        match self.read_commit(id) {
            Err(e) => Err(e),
            Ok(raw) => match parse_commit(raw, self.wide) {
                Some(c) => Ok(c),
                None => Err(Error::MalformedCommit),
            },
        }
    }

    pub fn commit_tree(&self, id: &Id) -> (r: Result<Id, Error>)
        ensures
            id_result(r) == self@.commit_tree(id@),
    {
        match self.commit(id) {
            Ok(c) => Ok(c.tree),
            Err(e) => Err(e),
        }
    }

    pub fn entries(&self, tree: &Id) -> (r: Result<Vec<TreeEntry>, Error>)
        ensures
            match r {
                Ok(es) => self@.entries(tree@) == Ok::<Seq<EntryView>, ErrorView>(
                    entries_view(es@),
                ),
                Err(e) => self@.entries(tree@) == Err::<Seq<EntryView>, ErrorView>(e@),
            },
    {
        if same_id(tree, &empty_tree_id(self.wide)) {
            let none: Vec<TreeEntry> = Vec::new();
            assert(entries_view(none@) =~= seq![]);
            return Ok(none);
        }
        match self.objects.get(tree) {
            None => Err(Error::Find { id: copy_of(tree) }),
            Some(o) => match decode_tree(&o.data, self.wide) {
                Some(es) => Ok(es),
                None => Err(Error::WrongKind { id: copy_of(tree), expected: Kind::Tree }),
            },
        }
    }

    pub fn child(&self, tree: &Id, name: &Vec<u8>) -> (r: Result<Option<Id>, Error>)
        ensures
            option_result(r) == self@.child(tree@, name@),
    {
        match self.entries(tree) {
            Err(e) => Err(e),
            Ok(es) => {
                let at = find_entry(&es, name);
                if at < es.len() && es[at].directory {
                    Ok(Some(copy_of(&es[at].id)))
                } else {
                    Ok(None)
                }
            },
        }
    }

    /// The tree that a path selects, where there is one.
    pub fn filtered_tree(&self, tree: &Id, names: &Vec<Vec<u8>>) -> (r: Result<Option<Id>, Error>)
        ensures
            option_result(r) == self@.subtree(tree@, names_view(names@), 0),
    {
        let mut current = copy_of(tree);
        let mut i: usize = 0;
        while i < names.len()
            invariant
                i <= names.len(),
                self@.subtree(tree@, names_view(names@), 0) == self@.subtree(
                    current@,
                    names_view(names@),
                    i as int,
                ),
            decreases names.len() - i,
        {
            match self.child(&current, &names[i]) {
                Err(e) => return Err(e),
                Ok(None) => return Ok(None),
                Ok(Some(next)) => current = next,
            }
            i += 1;
        }
        Ok(Some(current))
    }
}

// -- grafting ----------------------------------------------------------------

/// The entry that a graft puts into a tree.
pub open spec fn tree_entry(name: Seq<u8>, id: Seq<u8>) -> EntryView {
    EntryView { mode: tree_mode(), directory: true, name, id }
}

/// Entries with the one of a name replaced, or put at the end.
pub open spec fn with_entry(es: Seq<EntryView>, name: Seq<u8>, id: Seq<u8>) -> Seq<EntryView> {
    let at = entry_from(es, name, 0);
    if at < es.len() {
        es.update(at, tree_entry(name, id))
    } else {
        es.push(tree_entry(name, id))
    }
}

impl StoreView {
    /// The tree at `base` with the subtree at a path, from its `i`th component
    /// on, replaced by `sub`. Missing trees on the way are made, and anything
    /// that is no tree is replaced.
    pub open spec fn graft(self, base: Seq<u8>, names: Seq<Seq<u8>>, i: int, sub: Seq<u8>) -> (
        StoreView,
        Result<Seq<u8>, ErrorView>,
    )
        decreases names.len() - i,
    {
        if i >= names.len() {
            (self, Ok(sub))
        } else {
            match self.entries(base) {
                Err(e) => (self, Err(e)),
                Ok(es) => {
                    let at = entry_from(es, names[i], 0);
                    let below = if at < es.len() && es[at].directory {
                        es[at].id
                    } else {
                        empty_tree(self.wide)
                    };
                    match self.graft(below, names, i + 1, sub) {
                        (s, Err(e)) => (s, Err(e)),
                        (s, Ok(child)) => s.write(
                            Kind::Tree,
                            tree_bytes(in_tree_order(with_entry(es, names[i], child))),
                        ),
                    }
                },
            }
        }
    }
}

fn tree_mode_bytes() -> (r: Vec<u8>)
    ensures
        r@ == tree_mode(),
{
    let r: Vec<u8> = vec![52, 48, 48, 48, 48];
    assert(r@ =~= tree_mode());
    r
}

impl Store {
    /// Replaces the subtree at a path inside `base` with `sub`, making any
    /// missing trees on the way.
    pub fn graft_tree(&mut self, base: &Id, names: &Vec<Vec<u8>>, i: usize, sub: &Id) -> (r: Result<
        Id,
        Error,
    >)
        requires
            i <= names.len(),
        ensures
            (final(self)@, id_result(r)) == old(self)@.graft(
                base@,
                names_view(names@),
                i as int,
                sub@,
            ),
        decreases names.len() - i,
    {
        if i >= names.len() {
            return Ok(copy_of(sub));
        }
        let mut es = match self.entries(base) {
            Ok(es) => es,
            Err(e) => return Err(e),
        };
        let ghost all = entries_view(es@);
        let ghost name = names_view(names@)[i as int];
        let at = find_entry(&es, &names[i]);
        let below = if at < es.len() && es[at].directory {
            copy_of(&es[at].id)
        } else {
            empty_tree_id(self.wide)
        };
        let child = match self.graft_tree(&below, names, i + 1, sub) {
            Ok(id) => id,
            Err(e) => return Err(e),
        };
        let entry = TreeEntry {
            mode: tree_mode_bytes(),
            directory: true,
            name: copy_of(&names[i]),
            id: child,
        };
        assert(entry@ =~= tree_entry(name, child@));
        if at < es.len() {
            es.set(at, entry);
            assert(entries_view(es@) =~= all.update(at as int, entry@));
        } else {
            es.push(entry);
            assert(entries_view(es@) =~= all.push(entry@));
        }
        assert(entries_view(es@) == with_entry(all, name, child@));
        self.write(Kind::Tree, encode_tree(&sort_entries(es)))
    }
}

} // verus!
