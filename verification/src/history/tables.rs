//! Tables keyed by object ids.
use crate::history::error::Id;
use crate::text::copy_of;
use vstd::prelude::*;

verus! {

/// Whether two ids are the same.
pub fn same_id(a: &Id, b: &Id) -> (r: bool)
    ensures
        r == (a@ == b@),
{
    if a.len() != b.len() {
        return false;
    }
    let mut i: usize = 0;
    while i < a.len()
        invariant
            i <= a.len(),
            a.len() == b.len(),
            forall|j: int| 0 <= j < i ==> a@[j] == b@[j],
        decreases a.len() - i,
    {
        if a[i] != b[i] {
            return false;
        }
        i += 1;
    }
    assert(a@ =~= b@);
    true
}

/// Ids as their model.
pub open spec fn ids_view(v: Seq<Id>) -> Seq<Seq<u8>> {
    Seq::new(v.len(), |i: int| v[i]@)
}

/// An optional id as its model.
pub open spec fn id_view(o: Option<Id>) -> Option<Seq<u8>> {
    match o {
        Some(id) => Some(id@),
        None => None,
    }
}

pub fn copy_id(o: &Option<Id>) -> (r: Option<Id>)
    ensures
        id_view(r) == id_view(*o),
{
    match o {
        Some(id) => Some(copy_of(id)),
        None => None,
    }
}

pub fn copy_ids(v: &Vec<Id>) -> (r: Vec<Id>)
    ensures
        ids_view(r@) == ids_view(v@),
{
    let mut out: Vec<Id> = Vec::new();
    let mut i: usize = 0;
    while i < v.len()
        invariant
            i <= v.len(),
            out@.len() == i,
            forall|j: int| 0 <= j < i ==> (#[trigger] out@[j])@ == v@[j]@,
        decreases v.len() - i,
    {
        out.push(copy_of(&v[i]));
        i += 1;
    }
    assert(ids_view(out@) =~= ids_view(v@));
    out
}

/// Whether an id is among others.
pub fn has_id(v: &Vec<Id>, id: &Id) -> (r: bool)
    ensures
        r == ids_view(v@).contains(id@),
{
    let mut i: usize = 0;
    while i < v.len()
        invariant
            i <= v.len(),
            forall|j: int| 0 <= j < i ==> (#[trigger] v@[j])@ != id@,
        decreases v.len() - i,
    {
        if same_id(&v[i], id) {
            assert(ids_view(v@)[i as int] == id@);
            return true;
        }
        i += 1;
    }
    assert(forall|j: int| 0 <= j < ids_view(v@).len() ==> #[trigger] ids_view(v@)[j] == v@[j]@);
    false
}

/// A table: rows of an id and what it stands for, no id twice.
pub struct Table<V> {
    rows: Vec<(Id, V)>,
}

/// The ids of rows.
spec fn row_ids<V>(rows: Seq<(Id, V)>) -> Seq<Seq<u8>> {
    Seq::new(rows.len(), |i: int| rows[i].0@)
}

/// The first row from `i` on with this id, or the end.
spec fn row_of<V>(rows: Seq<(Id, V)>, id: Seq<u8>, i: int) -> int
    decreases rows.len() - i,
{
    if i >= rows.len() || rows[i].0@ == id {
        i
    } else {
        row_of(rows, id, i + 1)
    }
}

proof fn lemma_row<V>(rows: Seq<(Id, V)>, id: Seq<u8>, i: int)
    requires
        0 <= i <= rows.len(),
    ensures
        i <= row_of(rows, id, i) <= rows.len(),
        row_of(rows, id, i) < rows.len() ==> rows[row_of(rows, id, i)].0@ == id,
    decreases rows.len() - i,
{
    if !(i >= rows.len() || rows[i].0@ == id) {
        lemma_row(rows, id, i + 1);
    }
}

/// A change behind the row does not move it.
proof fn lemma_row_kept<V>(rows: Seq<(Id, V)>, more: Seq<(Id, V)>, id: Seq<u8>, i: int)
    requires
        0 <= i <= rows.len() <= more.len(),
        forall|j: int| 0 <= j < rows.len() ==> (#[trigger] more[j]).0@ == rows[j].0@,
    ensures
        row_of(rows, id, i) < rows.len() ==> row_of(more, id, i) == row_of(rows, id, i),
        row_of(rows, id, i) >= rows.len() ==> row_of(more, id, i) == row_of(
            more,
            id,
            rows.len() as int,
        ),
    decreases rows.len() - i,
{
    if i < rows.len() && rows[i].0@ != id {
        lemma_row_kept(rows, more, id, i + 1);
        assert(more[i].0@ == rows[i].0@);
    } else if i < rows.len() {
        assert(more[i].0@ == rows[i].0@);
    }
}

/// Where a row is after one was put at the end, or none was.
proof fn lemma_row_step<V>(rows: Seq<(Id, V)>, more: Seq<(Id, V)>, id: Seq<u8>)
    requires
        rows.len() <= more.len() <= rows.len() + 1,
        forall|j: int| 0 <= j < rows.len() ==> (#[trigger] more[j]).0@ == rows[j].0@,
    ensures
        row_of(rows, id, 0) < rows.len() ==> row_of(more, id, 0) == row_of(rows, id, 0),
        row_of(rows, id, 0) >= rows.len() ==> (row_of(more, id, 0) < more.len() <==> (more.len()
            == rows.len() + 1 && more.last().0@ == id)),
        row_of(rows, id, 0) >= rows.len() ==> row_of(more, id, 0) >= rows.len(),
        row_of(more, id, 0) < more.len() ==> more[row_of(more, id, 0)].0@ == id,
        row_of(rows, id, 0) <= rows.len(),
        0 <= row_of(rows, id, 0),
        0 <= row_of(more, id, 0) <= more.len(),
{
    lemma_row(rows, id, 0);
    lemma_row(more, id, 0);
    lemma_row_kept(rows, more, id, 0);
    lemma_row(more, id, rows.len() as int);
    if more.len() == rows.len() + 1 {
        assert(row_of(more, id, rows.len() as int) == if more.last().0@ == id {
            rows.len() as int
        } else {
            row_of(more, id, rows.len() as int + 1)
        });
    }
}

impl<V> View for Table<V> {
    type V = Map<Seq<u8>, V>;

    closed spec fn view(&self) -> Map<Seq<u8>, V> {
        Map::new(
            |id: Seq<u8>| row_of(self.rows@, id, 0) < self.rows@.len(),
            |id: Seq<u8>| self.rows@[row_of(self.rows@, id, 0)].1,
        )
    }
}

/// Where rows are distinct, there are as many ids as rows.
proof fn lemma_rows<V>(rows: Seq<(Id, V)>, ids: Set<Seq<u8>>)
    requires
        row_ids(rows).no_duplicates(),
        forall|id: Seq<u8>| #[trigger] ids.contains(id) <==> row_of(rows, id, 0) < rows.len(),
    ensures
        ids.finite(),
        ids.len() == rows.len(),
{
    let all = row_ids(rows);
    assert forall|id: Seq<u8>| #[trigger] ids.contains(id) <==> all.to_set().contains(id) by {
        lemma_row(rows, id, 0);
        if ids.contains(id) {
            assert(all[row_of(rows, id, 0)] == id);
        }
        if all.contains(id) {
            let i = choose|i: int| 0 <= i < all.len() && all[i] == id;
            lemma_row_reached(rows, id, 0, i);
        }
    }
    assert(ids =~= all.to_set());
    all.unique_seq_to_set();
    vstd::seq_lib::seq_to_set_is_finite(all);
}

/// The first row of an id is not behind any row of it.
proof fn lemma_row_reached<V>(rows: Seq<(Id, V)>, id: Seq<u8>, i: int, at: int)
    requires
        0 <= i <= at < rows.len(),
        rows[at].0@ == id,
    ensures
        row_of(rows, id, i) <= at,
    decreases at - i,
{
    if rows[i].0@ != id {
        lemma_row_reached(rows, id, i + 1, at);
    }
}

impl<V> Table<V> {
    /// No id occurs twice.
    #[verifier::type_invariant]
    spec fn distinct(&self) -> bool {
        row_ids(self.rows@).no_duplicates()
    }

    pub fn new() -> (r: Table<V>)
        ensures
            r@ == Map::<Seq<u8>, V>::empty(),
    {
        let r = Table { rows: Vec::new() };
        assert(r@ =~= Map::<Seq<u8>, V>::empty());
        r
    }

    fn row(&self, id: &Id) -> (r: usize)
        ensures
            r == row_of(self.rows@, id@, 0),
            r <= self.rows@.len(),
    {
        let mut i: usize = 0;
        while i < self.rows.len() && !same_id(&self.rows[i].0, id)
            invariant
                i <= self.rows.len(),
                row_of(self.rows@, id@, 0) == row_of(self.rows@, id@, i as int),
            decreases self.rows.len() - i,
        {
            i += 1;
        }
        i
    }

    pub fn has(&self, id: &Id) -> (r: bool)
        ensures
            r == self@.dom().contains(id@),
    {
        self.row(id) < self.rows.len()
    }

    pub fn get(&self, id: &Id) -> (r: Option<&V>)
        ensures
            match r {
                Some(v) => self@.dom().contains(id@) && *v == self@[id@],
                None => !self@.dom().contains(id@),
            },
    {
        let i = self.row(id);
        if i < self.rows.len() {
            Some(&self.rows[i].1)
        } else {
            None
        }
    }

    /// Puts a value under an id, in place of the one it had.
    pub fn put(&mut self, id: Id, value: V)
        ensures
            final(self)@ == old(self)@.insert(id@, value),
    {
        proof {
            use_type_invariant(&*self);
        }
        let ghost before = self.rows@;
        let ghost key = id@;
        let i = self.row(&id);
        proof {
            lemma_row(before, key, 0);
        }
        let mut rows: Vec<(Id, V)> = Vec::new();
        std::mem::swap(&mut rows, &mut self.rows);
        if i < rows.len() {
            rows.set(i, (id, value));
        } else {
            rows.push((id, value));
        }
        proof {
            let after = rows@;
            assert forall|a: int, b: int| 0 <= a < b < after.len() implies row_ids(after)[a]
                != row_ids(after)[b] by {
                if b < before.len() {
                    assert(row_ids(before)[a] != row_ids(before)[b]);
                } else if before[a].0@ == key {
                    lemma_row_reached(before, key, 0, a);
                }
            }
        }
        self.rows = rows;
        proof {
            let after = self.rows@;
            assert forall|j: int| 0 <= j < before.len() implies (#[trigger] after[j]).0@
                == before[j].0@ by {}
            let want = old(self)@.insert(key, value);
            assert forall|k: Seq<u8>| row_of(after, k, 0) < after.len() <==> want.dom().contains(
                k,
            ) by {
                lemma_row_step(before, after, k);
            }
            assert forall|k: Seq<u8>| #[trigger]
                self@.dom().contains(k) implies self@[k] == want[k] by {
                lemma_row_step(before, after, k);
            }
            assert(self@ =~= want);
        }
    }

    /// How many ids have a value.
    pub fn len(&self) -> (r: usize)
        ensures
            self@.dom().finite(),
            r == self@.dom().len(),
    {
        proof {
            use_type_invariant(self);
            lemma_rows(self.rows@, self@.dom());
        }
        self.rows.len()
    }
}

/// A table from ids to ids as its model.
pub open spec fn ids_of(t: Table<Id>) -> Map<Seq<u8>, Seq<u8>> {
    t@.map_values(|v: Id| v@)
}

/// A table from ids to optional ids as its model.
pub open spec fn options_of(t: Table<Option<Id>>) -> Map<Seq<u8>, Option<Seq<u8>>> {
    t@.map_values(|v: Option<Id>| id_view(v))
}

pub proof fn lemma_ids_put(t: Table<Id>, u: Table<Id>, id: Seq<u8>, v: Id)
    requires
        u@ == t@.insert(id, v),
    ensures
        ids_of(u) == ids_of(t).insert(id, v@),
{
    assert(ids_of(u) =~= ids_of(t).insert(id, v@));
}

pub proof fn lemma_options_put(t: Table<Option<Id>>, u: Table<Option<Id>>, id: Seq<u8>, v: Option<Id>)
    requires
        u@ == t@.insert(id, v),
    ensures
        options_of(u) == options_of(t).insert(id, id_view(v)),
{
    assert(options_of(u) =~= options_of(t).insert(id, id_view(v)));
}

} // verus!
