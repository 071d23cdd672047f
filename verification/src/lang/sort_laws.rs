//! What a sort does, whatever it sorts: it keeps the elements, and where the
//! comparison orders them, it orders them and keeps equal ones in their order.
use crate::lang::conts::{bump, Walked};
use crate::lang::frames::{Begin, Cont, Yield};
use crate::lang::heap::{HeapView, Value};
use vstd::prelude::*;

verus! {

// -- sorting -----------------------------------------------------------------

/// Whether a sort is on its way: the sorted list holds exactly the first
/// `next` elements, in some order.
pub open spec fn sorting(h: HeapView, items: usize, next: usize, sorted: usize) -> bool {
    &&& sorted != items
    &&& sorted < h.lists.len()
    &&& next <= h.list(items).len() <= usize::MAX
    &&& h.list(sorted).to_multiset() == h.list(items).take(next as int).to_multiset()
}

/// One more element on both sides.
proof fn lemma_one_more(from: Seq<usize>, n: int, had: Seq<usize>, at: int)
    requires
        0 <= n < from.len(),
        0 <= at <= had.len(),
        had.to_multiset() == from.take(n).to_multiset(),
    ensures
        had.insert(at, from[n]).to_multiset() == from.take(n + 1).to_multiset(),
{
    let more = had.insert(at, from[n]);
    assert(more.remove(at) =~= had);
    more.to_multiset_ensures();
    from.take(n).to_multiset_ensures();
    assert(from.take(n + 1) =~= from.take(n).push(from[n]));
    assert(more.contains(more[at]));
    assert(more.to_multiset() =~= had.to_multiset().insert(from[n]));
}

proof fn lemma_sort_next(
    h: HeapView,
    f: Value,
    items: usize,
    next: usize,
    sorted: usize,
    probe: usize,
)
    requires
        sorting(h, items, next, sorted),
    ensures
        sorts_on(items, sorted, h.sort_next(f, items, next, sorted, probe)),
{
    if next < h.list(items).len() && probe >= h.list(sorted).len() {
        let had = h.list(sorted);
        let item = h.list(items)[next as int];
        lemma_one_more(h.list(items), next as int, had, had.len() as int);
        assert(had.insert(had.len() as int, item) =~= had.push(item));
    }
}

/// Whether a step leaves a sort on its way, and hands out the sorted list only
/// once every element is in it.
pub open spec fn sorts_on(items: usize, sorted: usize, out: (HeapView, Walked)) -> bool {
    &&& out.1.0 matches Cont::Sort { items: i, next, sorted: s, .. } && i == items && s == sorted
        && sorting(out.0, items, next, sorted) && (out.1.1 matches Ok(Yield::Done(v)) ==> v
        == Value::List(sorted) && next == out.0.list(items).len())
}

/// A sort starts with every element still to be taken.
pub proof fn law_a_sort_starts_empty(h: HeapView, args: usize)
    requires
        h.bi_sort(args).0.lists.len() <= usize::MAX,
    ensures
        h.bi_sort(args) matches (g, Ok(Begin::Cont(c))) ==> (c matches Cont::Sort {
            items,
            next,
            sorted,
            ..
        } && (items != sorted && g.list(items).len() <= usize::MAX ==> next == 0 && sorting(
            g,
            items,
            next,
            sorted,
        ))),
{
    if let (g, Ok(Begin::Cont(c))) = h.bi_sort(args) {
        if let Cont::Sort { items, next, sorted, .. } = c {
            assert(g.list(items).take(next as int) =~= Seq::empty());
            assert(g.list(sorted) =~= Seq::empty());
        }
    }
}

/// Sorting loses no element and adds none, whatever the comparison says: at
/// every step the sorted list holds exactly the elements that were taken, and
/// what is handed out in the end holds them all.
pub proof fn law_sorting_keeps_the_elements(
    h: HeapView,
    f: Value,
    items: usize,
    next: usize,
    sorted: usize,
    probe: usize,
    half: bool,
    incoming: Option<Value>,
)
    requires
        sorting(h, items, next, sorted),
    ensures
        sorts_on(items, sorted, h.step_sort(f, items, next, sorted, probe, half, incoming)),
{
    match incoming {
        None => lemma_sort_next(h, f, items, next, sorted, probe),
        Some(v) => if half {
            let (g, less) = h.want_bool(v);
            if less is Ok {
                if !less->Ok_0 {
                    lemma_sort_next(g, f, items, next, sorted, bump(probe));
                } else if next < g.list(items).len() && probe <= g.list(sorted).len() {
                    let item = g.list(items)[next as int];
                    lemma_one_more(g.list(items), next as int, g.list(sorted), probe as int);
                    let more = g.list_put(sorted, g.list(sorted).insert(probe as int, item));
                    lemma_sort_next(more, f, items, bump(next), sorted, 0);
                }
            }
        },
    }
}

// -- the order ---------------------------------------------------------------

/// What a comparison says of two cells: whether the first is less.
pub type Less = spec_fn(usize, usize) -> bool;

/// Where a cell goes among cells already placed: before the first one that it
/// is less than, looking from `i` on.
pub open spec fn spot(a: Seq<usize>, less: Less, placed: Seq<int>, x: usize, i: int) -> int
    decreases placed.len() - i,
{
    if i >= placed.len() || less(x, a[placed[i]]) {
        i
    } else {
        spot(a, less, placed, x, i + 1)
    }
}

/// The positions of the first `n` cells, sorted by insertion.
pub open spec fn placing(a: Seq<usize>, less: Less, n: nat) -> Seq<int>
    decreases n,
{
    if n == 0 {
        Seq::empty()
    } else {
        let rest = placing(a, less, (n - 1) as nat);
        rest.insert(spot(a, less, rest, a[n - 1], 0), n - 1)
    }
}

/// The cells at some positions.
pub open spec fn at_all(a: Seq<usize>, placed: Seq<int>) -> Seq<usize> {
    Seq::new(placed.len(), |k: int| a[placed[k]])
}

/// Whether a comparison is a strict weak order: nothing is less than itself or
/// than what it is greater than, and of a pair in order, any third cell is
/// above the lower or below the upper.
pub open spec fn strict_weak(less: Less) -> bool {
    &&& forall|x: usize, y: usize| #[trigger] less(x, y) ==> !less(y, x)
    &&& forall|x: usize, y: usize, z: usize| #[trigger]
        less(x, z) ==> #[trigger] less(x, y) || less(y, z)
}

/// Whether positions are each of the first `n` once.
pub open spec fn is_arrangement(placed: Seq<int>, n: int) -> bool {
    &&& placed.len() == n
    &&& forall|k: int| 0 <= k < placed.len() ==> 0 <= #[trigger] placed[k] < n
    &&& forall|j: int, k: int|
        0 <= j < k < placed.len() ==> #[trigger] placed[j] != #[trigger] placed[k]
}

/// Whether cells are in order at their positions, and those of which neither is
/// less keep the order of their positions.
pub open spec fn in_stable_order(a: Seq<usize>, less: Less, placed: Seq<int>) -> bool {
    forall|j: int, k: int|
        0 <= j < k < placed.len() ==> {
            let x = a[#[trigger] placed[j]];
            let y = a[#[trigger] placed[k]];
            !less(y, x) && (!less(x, y) ==> placed[j] < placed[k])
        }
}

proof fn lemma_spot(a: Seq<usize>, less: Less, placed: Seq<int>, x: usize, i: int)
    requires
        0 <= i <= placed.len(),
    ensures
        i <= spot(a, less, placed, x, i) <= placed.len(),
        forall|k: int| i <= k < spot(a, less, placed, x, i) ==> !less(x, a[#[trigger] placed[k]]),
        spot(a, less, placed, x, i) < placed.len() ==> less(
            x,
            a[placed[spot(a, less, placed, x, i)]],
        ),
    decreases placed.len() - i,
{
    if i < placed.len() && !less(x, a[placed[i]]) {
        lemma_spot(a, less, placed, x, i + 1);
    }
}

/// The spot is where the first cell stands that the new one is less than.
proof fn lemma_spot_is(a: Seq<usize>, less: Less, placed: Seq<int>, x: usize, i: int, at: int)
    requires
        0 <= i <= at <= placed.len(),
        forall|k: int| i <= k < at ==> !less(x, a[#[trigger] placed[k]]),
        at < placed.len() ==> less(x, a[placed[at]]),
    ensures
        spot(a, less, placed, x, i) == at,
    decreases at - i,
{
    if i < at {
        assert(!less(x, a[placed[i]]));
        lemma_spot_is(a, less, placed, x, i + 1, at);
    }
}

/// Sorting by insertion arranges every cell, in order and keeping equal ones in
/// their order, where the comparison is an order.
pub proof fn law_insertion_sorts(a: Seq<usize>, less: Less, n: nat)
    requires
        n <= a.len(),
    ensures
        is_arrangement(placing(a, less, n), n as int),
        strict_weak(less) ==> in_stable_order(a, less, placing(a, less, n)),
    decreases n,
{
    if n > 0 {
        let rest = placing(a, less, (n - 1) as nat);
        law_insertion_sorts(a, less, (n - 1) as nat);
        let x = a[n - 1];
        lemma_spot(a, less, rest, x, 0);
        let at = spot(a, less, rest, x, 0);
        let all = placing(a, less, n);
        assert(all == rest.insert(at, n - 1));
        assert forall|k: int| 0 <= k < all.len() implies 0 <= #[trigger] all[k] < n by {
            if k < at {
                assert(all[k] == rest[k]);
            } else if k > at {
                assert(all[k] == rest[k - 1]);
            }
        }
        assert forall|j: int, k: int| 0 <= j < k < all.len() implies #[trigger] all[j]
            != #[trigger] all[k] by {
            let p = if j < at {
                rest[j]
            } else if j == at {
                n - 1
            } else {
                rest[j - 1]
            };
            let q = if k < at {
                rest[k]
            } else if k == at {
                n - 1
            } else {
                rest[k - 1]
            };
            assert(all[j] == p && all[k] == q);
        }
        if strict_weak(less) {
            lemma_inserted_in_order(a, less, rest, n, at);
        }
    }
}

proof fn lemma_inserted_in_order(a: Seq<usize>, less: Less, rest: Seq<int>, n: nat, at: int)
    requires
        0 < n <= a.len(),
        strict_weak(less),
        is_arrangement(rest, n - 1),
        in_stable_order(a, less, rest),
        0 <= at <= rest.len(),
        forall|k: int| 0 <= k < at ==> !less(a[n - 1], a[#[trigger] rest[k]]),
        at < rest.len() ==> less(a[n - 1], a[rest[at]]),
    ensures
        in_stable_order(a, less, rest.insert(at, n - 1)),
{
    let x = a[n - 1];
    let all = rest.insert(at, n - 1);
    assert forall|k: int| at <= k < rest.len() implies less(x, a[#[trigger] rest[k]]) by {
        if k > at {
            let (p, q) = (a[rest[at]], a[rest[k]]);
            assert(!less(q, p));
            assert(less(x, p));
            assert(less(x, q) || less(q, p));
        }
    }
    assert forall|j: int, k: int| 0 <= j < k < all.len() implies {
        let p = a[#[trigger] all[j]];
        let q = a[#[trigger] all[k]];
        !less(q, p) && (!less(p, q) ==> all[j] < all[k])
    } by {
        if k < at {
            assert(all[j] == rest[j] && all[k] == rest[k]);
        } else if k == at {
            assert(all[j] == rest[j]);
            assert(!less(x, a[rest[j]]));
        } else if j == at {
            assert(all[k] == rest[k - 1]);
            assert(less(x, a[rest[k - 1]]));
        } else if j < at {
            assert(all[j] == rest[j] && all[k] == rest[k - 1]);
        } else {
            assert(all[j] == rest[j - 1] && all[k] == rest[k - 1]);
        }
    }
}

// -- the run -----------------------------------------------------------------

/// One step of a sort: the heap, where the sort is, and the value that the
/// machine hands back.
pub struct SortStep {
    pub heap: HeapView,
    pub next: usize,
    pub probe: usize,
    pub half: bool,
    pub incoming: Option<Value>,
}

/// What is being sorted: the function, the list, and the list it goes to.
pub struct Sorting {
    pub f: Value,
    pub items: usize,
    pub sorted: usize,
}

impl SortStep {
    pub open spec fn taken(self, s: Sorting) -> (HeapView, Walked) {
        self.heap.step_sort(
            s.f,
            s.items,
            self.next,
            s.sorted,
            self.probe,
            self.half,
            self.incoming,
        )
    }
}

/// Whether one step follows another: the first asked for an application, which
/// left the two lists alone and was answered. Where the sort holds an element
/// against a sorted one, the answer is the comparison's.
pub open spec fn sort_follows(s: Sorting, less: Less, from: SortStep, to: SortStep) -> bool {
    let (g, (c, y)) = from.taken(s);
    &&& y matches Ok(Yield::Apply(_, arg)) && {
        &&& c == (Cont::Sort {
            f: s.f,
            items: s.items,
            next: to.next,
            sorted: s.sorted,
            probe: to.probe,
            half: to.half,
        })
        &&& s.sorted < to.heap.lists.len()
        &&& to.heap.list(s.items) == g.list(s.items)
        &&& to.heap.list(s.sorted) == g.list(s.sorted)
        &&& to.incoming is Some
        &&& to.half ==> to.incoming == Some(
            Value::Bool(less(g.list(s.items)[to.next as int], arg)),
        )
    }
}

/// A sort from its first step on.
pub open spec fn sort_run(s: Sorting, less: Less, run: Seq<SortStep>) -> bool {
    &&& run.len() > 0
    &&& s.sorted != s.items
    &&& s.sorted < run[0].heap.lists.len()
    &&& run[0].heap.list(s.items).len() <= usize::MAX
    &&& run[0].heap.list(s.sorted).len() == 0
    &&& run[0].next == 0
    &&& run[0].probe == 0
    &&& run[0].incoming is None
    &&& forall|k: int|
        0 <= k < run.len() - 1 ==> sort_follows(s, less, #[trigger] run[k], run[k + 1])
}

/// Where a sort is at a step: the first `next` elements are sorted, and the
/// next one is less than none of the first `probe` of them.
spec fn sort_stands(
    a: Seq<usize>,
    less: Less,
    h: HeapView,
    s: Sorting,
    next: usize,
    probe: usize,
) -> bool {
    let placed = placing(a, less, next as nat);
    &&& s.sorted != s.items
    &&& s.sorted < h.lists.len()
    &&& h.list(s.items) == a
    &&& a.len() <= usize::MAX
    &&& next <= a.len()
    &&& h.list(s.sorted) == at_all(a, placed)
    &&& placed.len() == next
    &&& probe <= next
    &&& next < a.len() ==> forall|k: int|
        0 <= k < probe ==> !less(a[next as int], a[#[trigger] placed[k]])
}

/// What the sort does next, from where it stands.
proof fn lemma_sort_goes_on(
    a: Seq<usize>,
    less: Less,
    h: HeapView,
    s: Sorting,
    next: usize,
    probe: usize,
)
    requires
        sort_stands(a, less, h, s, next, probe),
    ensures
        ({
            let (g, (c, y)) = h.sort_next(s.f, s.items, next, s.sorted, probe);
            &&& c matches Cont::Sort { next: n, probe: p, half, .. } && !half && sort_stands(
                a,
                less,
                g,
                s,
                n,
                p,
            ) && (y matches Ok(Yield::Apply(_, _)) ==> n < a.len() && p < n) && (
            y matches Ok(Yield::Done(v)) ==> v == Value::List(s.sorted) && n == a.len())
        }),
{
    if next < a.len() && probe >= h.list(s.sorted).len() {
        let placed = placing(a, less, next as nat);
        lemma_spot_is(a, less, placed, a[next as int], 0, placed.len() as int);
        let all = placing(a, less, (next + 1) as nat);
        assert(all =~= placed.push(next as int));
        let g = h.push_list(s.sorted, a[next as int]);
        assert(g.list(s.sorted) =~= at_all(a, all));
        assert(g.list(s.items) == a);
    }
}

proof fn lemma_sort_step(a: Seq<usize>, less: Less, s: Sorting, k: SortStep)
    requires
        sort_stands(a, less, k.heap, s, k.next, k.probe),
        k.incoming is Some ==> k.next < a.len() && k.probe < k.next,
        k.incoming is Some && k.half ==> k.incoming == Some(
            Value::Bool(less(a[k.next as int], k.heap.list(s.sorted)[k.probe as int])),
        ),
    ensures
        ({
            let (g, (c, y)) = k.taken(s);
            &&& c matches Cont::Sort { next: n, probe: p, half, .. } && sort_stands(
                a,
                less,
                g,
                s,
                n,
                p,
            ) && (y matches Ok(Yield::Apply(_, arg)) ==> n < a.len() && p < n && (half ==> arg
                == g.list(s.sorted)[p as int])) && (y matches Ok(Yield::Done(v)) ==> v
                == Value::List(s.sorted) && n == a.len())
        }),
{
    let placed = placing(a, less, k.next as nat);
    match k.incoming {
        None => lemma_sort_goes_on(a, less, k.heap, s, k.next, k.probe),
        Some(v) => if k.half {
            let x = a[k.next as int];
            let y = a[placed[k.probe as int]];
            assert(k.heap.list(s.sorted)[k.probe as int] == y);
            if !less(x, y) {
                lemma_sort_goes_on(a, less, k.heap, s, k.next, bump(k.probe));
            } else {
                lemma_spot_is(a, less, placed, x, 0, k.probe as int);
                let all = placing(a, less, (k.next + 1) as nat);
                assert(all == placed.insert(k.probe as int, k.next as int));
                let more = k.heap.list_put(
                    s.sorted,
                    k.heap.list(s.sorted).insert(k.probe as int, x),
                );
                assert(more.list(s.sorted) =~= at_all(a, all));
                assert(more.list(s.items) == a);
                lemma_sort_goes_on(a, less, more, s, bump(k.next), 0);
            }
        },
    }
}

proof fn lemma_sort_run(s: Sorting, less: Less, run: Seq<SortStep>, k: int)
    requires
        sort_run(s, less, run),
        0 <= k < run.len(),
    ensures
        ({
            let a = run[0].heap.list(s.items);
            let at = run[k];
            &&& sort_stands(a, less, at.heap, s, at.next, at.probe)
            &&& at.incoming is Some ==> at.next < a.len() && at.probe < at.next
            &&& at.incoming is Some && at.half ==> at.incoming == Some(
                Value::Bool(less(a[at.next as int], at.heap.list(s.sorted)[at.probe as int])),
            )
        }),
    decreases k,
{
    let a = run[0].heap.list(s.items);
    if k == 0 {
        assert(run[0].heap.list(s.sorted) =~= at_all(a, placing(a, less, 0)));
    } else {
        lemma_sort_run(s, less, run, k - 1);
        lemma_sort_step(a, less, s, run[k - 1]);
        assert(sort_follows(s, less, run[k - 1], run[k]));
    }
}

/// What a sort hands out in the end, having been answered by a comparison all
/// along: its elements, each once and placed by insertion. Where the comparison
/// is a strict weak order, they are in order, and those of which neither is
/// less than the other keep the order that they came in.
pub proof fn law_a_sort_is_ordered_and_stable(s: Sorting, less: Less, run: Seq<SortStep>)
    requires
        sort_run(s, less, run),
    ensures
        ({
            let a = run[0].heap.list(s.items);
            let placed = placing(a, less, a.len());
            let (g, (_, y)) = run.last().taken(s);
            y matches Ok(Yield::Done(v)) ==> {
                &&& v == Value::List(s.sorted)
                &&& g.list(s.sorted) == at_all(a, placed)
                &&& is_arrangement(placed, a.len() as int)
                &&& strict_weak(less) ==> in_stable_order(a, less, placed)
            }
        }),
{
    let a = run[0].heap.list(s.items);
    let k = run.len() - 1;
    lemma_sort_run(s, less, run, k);
    lemma_sort_step(a, less, s, run[k]);
    law_insertion_sorts(a, less, a.len());
}

} // verus!
