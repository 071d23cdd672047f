//! What a whole `genericClosure` run finds: everything that can be reached,
//! each key once, in the order of its queue.
use crate::lang::closure::Sought;
use crate::lang::conts::{bump, item_value, Walked};
use crate::lang::frames::{Begin, Cont, Generic, Stage, Yield};
use crate::lang::heap::{HeapView, Item, Slot, Value};
use crate::lang::strings::Order;
use crate::lang::text_laws::turned;
use crate::lang::walks::{sign_order, Ordered};
use vstd::prelude::*;

verus! {

// -- what is to be found -----------------------------------------------------

/// What a run is about: the start set, the operator, the key of each element,
/// what the operator leads to from each, and how keys compare.
pub struct World {
    pub start: Seq<Slot>,
    pub op: Value,
    pub key_of: spec_fn(Slot) -> Value,
    pub next_of: spec_fn(Slot) -> Seq<Slot>,
    pub order: spec_fn(Value, Value) -> Order,
}

/// Whether two elements have equal keys.
pub open spec fn same_key(w: World, a: Slot, b: Slot) -> bool {
    (w.order)((w.key_of)(a), (w.key_of)(b)) == Order::Equal
}

/// Whether one of some elements has the key of this one.
pub open spec fn has_key(w: World, among: Seq<Slot>, s: Slot) -> bool {
    exists|j: int| 0 <= j < among.len() && same_key(w, s, #[trigger] among[j])
}

/// The elements of a queue whose key has not come before.
pub open spec fn firsts(w: World, queue: Seq<Slot>) -> Seq<Slot>
    decreases queue.len(),
{
    if queue.len() == 0 {
        Seq::empty()
    } else {
        let before = firsts(w, queue.drop_last());
        if has_key(w, before, queue.last()) {
            before
        } else {
            before.push(queue.last())
        }
    }
}

/// What the operator leads to from some elements, one after the other.
pub open spec fn reached(w: World, from: Seq<Slot>) -> Seq<Slot>
    decreases from.len(),
{
    if from.len() == 0 {
        Seq::empty()
    } else {
        reached(w, from.drop_last()) + (w.next_of)(from.last())
    }
}

/// Whether keys compare as things in an order do: a key equals itself, a
/// comparison turns round with its sides, and what is less than something that
/// is less than a third is less than the third. That keys equal to one key equal
/// one another is not asked: a float that is no number equals every number.
pub open spec fn orders(order: spec_fn(Value, Value) -> Order) -> bool {
    &&& forall|a: Value| #[trigger] order(a, a) == Order::Equal
    &&& forall|a: Value, b: Value| order(b, a) == turned(#[trigger] order(a, b))
    &&& forall|a: Value, b: Value, c: Value|
        #[trigger] order(a, b) == Order::Less && #[trigger] order(b, c) == Order::Less ==> order(
            a,
            c,
        ) == Order::Less
}

proof fn lemma_above(order: spec_fn(Value, Value) -> Order, a: Value, b: Value, c: Value)
    requires
        orders(order),
    ensures
        order(a, b) == Order::Less && order(b, c) == Order::Less ==> order(a, c) == Order::Less,
        order(a, b) == Order::Greater && order(c, b) == Order::Less ==> order(a, c)
            == Order::Greater,
{
    assert(order(b, a) == turned(order(a, b)));
    assert(order(a, c) == turned(order(c, a)));
    assert(order(c, b) == Order::Less && order(b, a) == Order::Less ==> order(c, a)
        == Order::Less);
}

// -- the run -----------------------------------------------------------------

/// One step of a run: the heap, where the run is, and the value that the
/// machine hands back.
pub struct ClosureStep {
    pub heap: HeapView,
    pub g: Generic,
    pub incoming: Option<Value>,
}

impl ClosureStep {
    pub open spec fn taken(self, args: usize) -> (HeapView, Walked) {
        self.heap.step_generic(self.g, args, self.incoming)
    }
}

/// The middle of what is left to search.
pub open spec fn middle(g: Generic) -> usize {
    (g.lo + (g.hi - g.lo) / 2) as usize
}

/// Whether the lists of a run are there, and apart.
pub open spec fn set_up(h: HeapView, g: Generic) -> bool {
    &&& g.work != g.res
    &&& g.work < h.lists.len()
    &&& g.res < h.lists.len()
    &&& g.keys < h.works.len()
}

/// Whether what a run holds can be counted.
pub open spec fn countable(h: HeapView, g: Generic) -> bool {
    h.list(g.work).len() <= usize::MAX && h.work(g.keys).len() <= usize::MAX
}

/// Whether a key compares with others as the world has it, where it compares at
/// all.
pub open spec fn agreed(w: World, h: HeapView, keys: Seq<Item>, k: Value) -> bool {
    forall|p: int|
        0 <= p < keys.len() ==> ((#[trigger] h.key_order(k, item_value(keys[p]))).1 matches Ok(
            Ordered::Known(o),
        ) ==> (w.order)(k, item_value(keys[p])) == o)
}

/// Whether the machine was answered as the world has it.
pub open spec fn answered(w: World, k: ClosureStep) -> bool {
    &&& k.incoming is Some
    &&& match k.g.stage {
        Stage::StartSet => k.incoming matches Some(Value::List(l)) ==> k.heap.list(l) == w.start
            && l != k.g.work && l != k.g.res,
        Stage::Operator => k.incoming == Some(w.op),
        Stage::Key => k.incoming == Some((w.key_of)(k.g.cur)) && agreed(
            w,
            k.heap,
            k.heap.work(k.g.keys),
            (w.key_of)(k.g.cur),
        ),
        Stage::Probe => sign_order(k.incoming) == (w.order)(
            k.g.key,
            item_value(k.heap.work(k.g.keys)[middle(k.g) as int]),
        ) && agreed(w, k.heap, k.heap.work(k.g.keys), k.g.key),
        Stage::OpResult => k.incoming matches Some(Value::List(l)) ==> k.heap.list(l)
            == (w.next_of)(k.g.cur) && l != k.g.work && l != k.g.res && k.heap.list(
            k.g.work,
        ).len() + k.heap.list(l).len() <= usize::MAX,
        _ => true,
    }
}

/// Whether one step follows another: the first asked for something, which left
/// the run's lists alone and was answered.
pub open spec fn closure_follows(w: World, args: usize, from: ClosureStep, to: ClosureStep) -> bool {
    let (h, (c, y)) = from.taken(args);
    &&& y is Ok
    &&& !(y->Ok_0 is Done)
    &&& c == Cont::Generic(to.g)
    &&& set_up(to.heap, to.g)
    &&& countable(to.heap, to.g)
    &&& to.heap.list(to.g.work) == h.list(to.g.work)
    &&& to.heap.list(to.g.res) == h.list(to.g.res)
    &&& to.heap.work(to.g.keys) == h.work(to.g.keys)
    &&& to.heap.list(to.g.pending) == h.list(to.g.pending)
    &&& answered(w, to)
}

/// A run from its first step on.
pub open spec fn closure_run(w: World, args: usize, run: Seq<ClosureStep>) -> bool {
    &&& run.len() > 0
    &&& run[0].g.stage == Stage::Fresh
    &&& run[0].g.taken == 0
    &&& run[0].incoming is None
    &&& set_up(run[0].heap, run[0].g)
    &&& run[0].heap.list(run[0].g.work).len() == 0
    &&& run[0].heap.list(run[0].g.res).len() == 0
    &&& run[0].heap.work(run[0].g.keys).len() == 0
    &&& forall|k: int|
        0 <= k < run.len() - 1 ==> closure_follows(w, args, #[trigger] run[k], run[k + 1])
}

/// What the first `n` steps of a run asked to be applied to something: to what.
pub open spec fn applied(args: usize, run: Seq<ClosureStep>, n: int) -> Seq<Slot>
    decreases n,
{
    if n <= 0 {
        Seq::empty()
    } else {
        match run[n - 1].taken(args).1.1 {
            Ok(Yield::Apply(_, s)) => applied(args, run, n - 1).push(s),
            _ => applied(args, run, n - 1),
        }
    }
}

// -- where a run stands ------------------------------------------------------

/// Whether a key is in a list of keys.
spec fn listed(keys: Seq<Item>, v: Value) -> bool {
    exists|p: int| 0 <= p < keys.len() && item_value(#[trigger] keys[p]) == v
}

/// Whether a key is that of one of some elements.
spec fn borne(w: World, res: Seq<Slot>, v: Value) -> bool {
    exists|j: int| 0 <= j < res.len() && (w.key_of)(#[trigger] res[j]) == v
}

/// Whether keys are in ascending order.
spec fn ascending(w: World, keys: Seq<Item>) -> bool {
    forall|i: int, j: int|
        0 <= i < j < keys.len() ==> (w.order)(
            item_value(#[trigger] keys[i]),
            item_value(#[trigger] keys[j]),
        ) == Order::Less
}

/// Whether the keys are those of the results, in ascending order.
spec fn keyed(w: World, res: Seq<Slot>, keys: Seq<Item>) -> bool {
    &&& ascending(w, keys)
    &&& forall|v: Value| #[trigger] listed(keys, v) == borne(w, res, v)
}

/// Whether the first `n` elements of the queue have been dealt with.
spec fn dealt(w: World, h: HeapView, g: Generic, n: int) -> bool {
    &&& set_up(h, g)
    &&& 0 <= n <= h.list(g.work).len()
    &&& h.list(g.res) == firsts(w, h.list(g.work).take(n))
    &&& keyed(w, h.list(g.res), h.work(g.keys))
}

/// Whether everything from the results but the last `left` is in the queue.
spec fn queued(w: World, h: HeapView, g: Generic, left: int) -> bool {
    let res = h.list(g.res);
    left <= res.len() && h.list(g.work) == w.start + reached(w, res.take(res.len() - left))
}

/// Whether a key is above the keys before `lo` and below those from `hi` on.
spec fn bounded(w: World, keys: Seq<Item>, k: Value, lo: int, hi: int) -> bool {
    &&& 0 <= lo <= hi <= keys.len()
    &&& forall|i: int|
        0 <= i < lo ==> (w.order)(k, item_value(#[trigger] keys[i])) == Order::Greater
    &&& forall|i: int|
        hi <= i < keys.len() ==> (w.order)(k, item_value(#[trigger] keys[i])) == Order::Less
}

spec fn stands(w: World, h: HeapView, g: Generic) -> bool {
    match g.stage {
        Stage::Fresh | Stage::StartSet => {
            &&& set_up(h, g)
            &&& g.taken == 0
            &&& h.list(g.work).len() == 0
            &&& h.list(g.res).len() == 0
            &&& h.work(g.keys).len() == 0
        },
        Stage::Operator => {
            &&& g.taken == 0
            &&& dealt(w, h, g, 0)
            &&& queued(w, h, g, 0)
        },
        Stage::Elem | Stage::Key => {
            &&& g.op == w.op
            &&& 0 < g.taken <= h.list(g.work).len()
            &&& g.cur == h.list(g.work)[g.taken - 1]
            &&& dealt(w, h, g, g.taken - 1)
            &&& queued(w, h, g, 0)
        },
        Stage::Probe => {
            &&& g.op == w.op
            &&& 0 < g.taken <= h.list(g.work).len()
            &&& g.cur == h.list(g.work)[g.taken - 1]
            &&& dealt(w, h, g, g.taken - 1)
            &&& queued(w, h, g, 0)
            &&& g.key == (w.key_of)(g.cur)
            &&& g.lo < g.hi
            &&& bounded(w, h.work(g.keys), g.key, g.lo as int, g.hi as int)
        },
        Stage::OpResult => {
            &&& g.op == w.op
            &&& dealt(w, h, g, g.taken as int)
            &&& queued(w, h, g, 1)
            &&& h.list(g.res).len() > 0
            &&& h.list(g.res).last() == g.cur
        },
        Stage::OpElem => {
            &&& g.op == w.op
            &&& dealt(w, h, g, g.taken as int)
            &&& queued(w, h, g, 1)
            &&& h.list(g.res).len() > 0
            &&& h.list(g.res).last() == g.cur
            &&& g.pending != g.work
            &&& g.pending != g.res
            &&& h.list(g.pending) == (w.next_of)(g.cur)
            &&& h.list(g.work).len() + h.list(g.pending).len() <= usize::MAX
        },
    }
}

/// What a step leaves: the run goes on and its results are what was applied,
/// or it is done.
spec fn goes_on(w: World, was: Seq<Slot>, out: (HeapView, Walked)) -> bool {
    let (h, (c, y)) = out;
    y is Ok ==> c is Generic && {
        let g = c->Generic_0;
        match y->Ok_0 {
            Yield::Done(v) => finished(w, h, g, v) && h.list(g.res) == was,
            Yield::Apply(f, s) => f == w.op && stands(w, h, g) && h.list(g.res) == was.push(s),
            _ => stands(w, h, g) && h.list(g.res) == was,
        }
    }
}

/// Whether a run came to its end with everything that can be reached.
pub open spec fn finished(w: World, h: HeapView, g: Generic, v: Value) -> bool {
    let res = h.list(g.res);
    &&& v == Value::List(g.res)
    &&& res == firsts(w, w.start + reached(w, res))
}

proof fn lemma_next_element(w: World, h: HeapView, g: Generic)
    requires
        countable(h, g),
        g.op == w.op,
        dealt(w, h, g, g.taken as int),
        queued(w, h, g, 0),
    ensures
        goes_on(w, h.list(g.res), h.next_element(g)),
{
    let work = h.list(g.work);
    let res = h.list(g.res);
    assert(res.take(res.len() as int) =~= res);
    if g.taken >= work.len() {
        assert(work.take(g.taken as int) =~= work);
    }
}

/// One more element of the queue is dealt with.
proof fn lemma_firsts_step(w: World, work: Seq<Slot>, n: int)
    requires
        0 < n <= work.len(),
    ensures
        firsts(w, work.take(n)) == ({
            let before = firsts(w, work.take(n - 1));
            if has_key(w, before, work[n - 1]) {
                before
            } else {
                before.push(work[n - 1])
            }
        }),
{
    assert(work.take(n).drop_last() =~= work.take(n - 1));
    assert(work.take(n).last() == work[n - 1]);
}

proof fn lemma_seek(w: World, h: HeapView, keys: Seq<Item>, k: Value, lo: usize, hi: usize)
    requires
        orders(w.order),
        agreed(w, h, keys, k),
        keys.len() <= usize::MAX,
        bounded(w, keys, k, lo as int, hi as int),
        ascending(w, keys),
    ensures
        match h.seek(keys, k, lo, hi) {
            (g, Ok(Sought::Present)) => g == h && exists|p: int|
                0 <= p < keys.len() && (w.order)(k, item_value(#[trigger] keys[p]))
                    == Order::Equal,
            (g, Ok(Sought::At(at))) => g == h && bounded(w, keys, k, at as int, at as int),
            (g, Ok(Sought::Ask { lo: l, hi: u, .. })) => g == h && l < u && bounded(
                w,
                keys,
                k,
                l as int,
                u as int,
            ),
            (_, Err(_)) => true,
        },
    decreases hi - lo,
{
    if lo < hi {
        let mid = (lo + (hi - lo) / 2) as usize;
        let here = item_value(keys[mid as int]);
        if let (g, Ok(Ordered::Known(o))) = h.key_order(k, here) {
            assert(g == h);
            assert((w.order)(k, here) == o);
            lemma_halved(w, keys, k, lo as int, mid as int, hi as int);
            match o {
                Order::Less => lemma_seek(w, h, keys, k, lo, mid),
                Order::Greater => lemma_seek(w, h, keys, k, (mid + 1) as usize, hi),
                Order::Equal => {},
            }
        }
    }
}

/// One comparison rules out the keys on one side of it.
proof fn lemma_halved(w: World, keys: Seq<Item>, k: Value, lo: int, mid: int, hi: int)
    requires
        orders(w.order),
        bounded(w, keys, k, lo, hi),
        lo <= mid < hi,
        ascending(w, keys),
    ensures
        (w.order)(k, item_value(keys[mid])) == Order::Less ==> bounded(w, keys, k, lo, mid),
        (w.order)(k, item_value(keys[mid])) == Order::Greater ==> bounded(
            w,
            keys,
            k,
            mid + 1,
            hi,
        ),
{
    let here = item_value(keys[mid]);
    assert forall|i: int| mid <= i < keys.len() && (w.order)(k, here) == Order::Less implies (
    w.order)(k, item_value(#[trigger] keys[i])) == Order::Less by {
        if i > mid {
            lemma_above(w.order, k, here, item_value(keys[i]));
            assert((w.order)(item_value(keys[mid]), item_value(keys[i])) == Order::Less);
        }
    }
    assert forall|i: int| 0 <= i <= mid && (w.order)(k, here) == Order::Greater implies (w.order)(
        k,
        item_value(#[trigger] keys[i]),
    ) == Order::Greater by {
        if i < mid {
            lemma_above(w.order, k, here, item_value(keys[i]));
            assert((w.order)(item_value(keys[i]), item_value(keys[mid])) == Order::Less);
        }
    }
}

/// The key of a new result goes among the keys.
proof fn lemma_keyed_more(w: World, res: Seq<Slot>, keys: Seq<Item>, s: Slot, at: int)
    requires
        orders(w.order),
        keyed(w, res, keys),
        bounded(w, keys, (w.key_of)(s), at, at),
    ensures
        keyed(w, res.push(s), keys.insert(at, Item::Val((w.key_of)(s)))),
        !has_key(w, res, s),
{
    let k = (w.key_of)(s);
    let more = keys.insert(at, Item::Val(k));
    let all = res.push(s);
    lemma_ascending_more(w, keys, k, at);
    assert forall|v: Value| #[trigger] listed(more, v) == borne(w, all, v) by {
        assert(listed(keys, v) == borne(w, res, v));
        if listed(more, v) {
            let p = choose|p: int| 0 <= p < more.len() && item_value(#[trigger] more[p]) == v;
            if p == at {
                assert((w.key_of)(all[res.len() as int]) == v);
            } else {
                let q = if p < at {
                    p
                } else {
                    p - 1
                };
                assert(item_value(keys[q]) == v);
                let j = choose|j: int| 0 <= j < res.len() && (w.key_of)(#[trigger] res[j]) == v;
                assert((w.key_of)(all[j]) == v);
            }
        }
        if borne(w, all, v) {
            let j = choose|j: int| 0 <= j < all.len() && (w.key_of)(#[trigger] all[j]) == v;
            if j == res.len() {
                assert(item_value(more[at]) == v);
            } else {
                assert((w.key_of)(res[j]) == v);
                let q = choose|q: int| 0 <= q < keys.len() && item_value(#[trigger] keys[q]) == v;
                let p = if q < at {
                    q
                } else {
                    q + 1
                };
                assert(item_value(more[p]) == v);
            }
        }
    }
    assert forall|j: int| 0 <= j < res.len() implies !same_key(w, s, #[trigger] res[j]) by {
        let v = (w.key_of)(res[j]);
        assert(borne(w, res, v));
        assert(listed(keys, v));
        let p = choose|p: int| 0 <= p < keys.len() && item_value(#[trigger] keys[p]) == v;
        assert((w.order)(k, item_value(keys[p])) != Order::Equal);
    }
}

proof fn lemma_ascending_more(w: World, keys: Seq<Item>, k: Value, at: int)
    requires
        orders(w.order),
        ascending(w, keys),
        bounded(w, keys, k, at, at),
    ensures
        ascending(w, keys.insert(at, Item::Val(k))),
{
    let more = keys.insert(at, Item::Val(k));
    assert forall|i: int, j: int| 0 <= i < j < more.len() implies (w.order)(
        item_value(#[trigger] more[i]),
        item_value(#[trigger] more[j]),
    ) == Order::Less by {
        if j < at {
            assert(more[i] == keys[i] && more[j] == keys[j]);
        } else if j == at {
            assert(more[i] == keys[i]);
            assert((w.order)(k, item_value(keys[i])) == Order::Greater);
            assert((w.order)(item_value(keys[i]), k) == turned(
                (w.order)(k, item_value(keys[i])),
            ));
        } else if i == at {
            assert(more[j] == keys[j - 1]);
            assert((w.order)(k, item_value(keys[j - 1])) == Order::Less);
        } else if i < at {
            assert(more[i] == keys[i] && more[j] == keys[j - 1]);
        } else {
            assert(more[i] == keys[i - 1] && more[j] == keys[j - 1]);
        }
    }
}

proof fn lemma_key_sought(w: World, h: HeapView, g: Generic, lo: usize, hi: usize)
    requires
        orders(w.order),
        agreed(w, h, h.work(g.keys), g.key),
        countable(h, g),
        g.op == w.op,
        0 < g.taken <= h.list(g.work).len(),
        g.cur == h.list(g.work)[g.taken - 1],
        dealt(w, h, g, g.taken - 1),
        queued(w, h, g, 0),
        g.key == (w.key_of)(g.cur),
        bounded(w, h.work(g.keys), g.key, lo as int, hi as int),
    ensures
        ({
            let (f, found) = h.seek(h.work(g.keys), g.key, lo, hi);
            goes_on(w, h.list(g.res), f.key_sought(g, found))
        }),
{
    let keys = h.work(g.keys);
    let work = h.list(g.work);
    let res = h.list(g.res);
    lemma_seek(w, h, keys, g.key, lo, hi);
    lemma_firsts_step(w, work, g.taken as int);
    assert(res.take(res.len() as int) =~= res);
    let (f, found) = h.seek(keys, g.key, lo, hi);
    match found {
        Ok(Sought::Present) => {
            let p = choose|p: int|
                0 <= p < keys.len() && (w.order)(g.key, item_value(#[trigger] keys[p]))
                    == Order::Equal;
            let v = item_value(keys[p]);
            assert(listed(keys, v));
            assert(borne(w, res, v));
            let j = choose|j: int| 0 <= j < res.len() && (w.key_of)(#[trigger] res[j]) == v;
            assert(same_key(w, g.cur, res[j]));
            assert(has_key(w, res, g.cur));
            lemma_next_element(w, h, g);
        },
        Ok(Sought::At(at)) => {
            lemma_keyed_more(w, res, keys, g.cur, at as int);
            let more = h.work_put(g.keys, keys.insert(at as int, Item::Val(g.key)));
            let last = more.push_list(g.res, g.cur);
            assert(last.list(g.res) =~= res.push(g.cur));
            assert(last.list(g.work) == work);
            assert(last.work(g.keys) == keys.insert(at as int, Item::Val(g.key)));
            assert(res.push(g.cur).take(res.len() as int) =~= res);
            let out = Generic { stage: Stage::OpResult, ..g };
            assert(h.key_sought(g, found).0 == last);
            assert(stands(w, last, out));
        },
        _ => {},
    }
}

proof fn lemma_force_pending(w: World, h: HeapView, g: Generic)
    requires
        countable(h, g),
        stands(w, h, Generic { stage: Stage::OpElem, ..g }),
    ensures
        goes_on(w, h.list(g.res), h.force_pending(g)),
{
    let work = h.list(g.work);
    let res = h.list(g.res);
    let pending = h.list(g.pending);
    if g.pi >= pending.len() {
        let f = h.list_put(g.work, work + pending);
        assert(f.list(g.work) == work + pending);
        assert(f.list(g.res) == res);
        assert(f.work(g.keys) == h.work(g.keys));
        assert((work + pending).take(g.taken as int) =~= work.take(g.taken as int));
        assert(res.take(res.len() - 1) =~= res.drop_last());
        assert(res.take(res.len() as int) =~= res);
        assert(work + pending =~= w.start + reached(w, res));
        lemma_next_element(w, f, g);
    }
}

proof fn lemma_probe(w: World, k: ClosureStep, args: usize)
    requires
        orders(w.order),
        countable(k.heap, k.g),
        stands(w, k.heap, k.g),
        k.g.stage == Stage::Probe,
        answered(w, k),
    ensures
        goes_on(w, k.heap.list(k.g.res), k.taken(args)),
{
    let g = k.g;
    let h = k.heap;
    let keys = h.work(g.keys);
    let mid = middle(g);
    let res = h.list(g.res);
    lemma_halved(w, keys, g.key, g.lo as int, mid as int, g.hi as int);
    match sign_order(k.incoming) {
        Order::Less => lemma_key_sought(w, h, g, g.lo, mid),
        Order::Greater => lemma_key_sought(w, h, g, bump(mid), g.hi),
        Order::Equal => {
            let v = item_value(keys[mid as int]);
            assert(listed(keys, v));
            assert(borne(w, res, v));
            let j = choose|j: int| 0 <= j < res.len() && (w.key_of)(#[trigger] res[j]) == v;
            assert(same_key(w, g.cur, res[j]));
            assert(has_key(w, res, g.cur));
            lemma_firsts_step(w, h.list(g.work), g.taken as int);
            lemma_next_element(w, h, g);
        },
    }
}

proof fn lemma_closure_step(w: World, k: ClosureStep, args: usize)
    requires
        orders(w.order),
        w.start.len() > 0,
        countable(k.heap, k.g),
        stands(w, k.heap, k.g),
        k.g.stage == Stage::Fresh || answered(w, k),
        k.g.stage == Stage::Fresh ==> k.incoming is None,
    ensures
        goes_on(w, k.heap.list(k.g.res), k.taken(args)),
{
    let g = k.g;
    let h = k.heap;
    let res = h.list(g.res);
    match g.stage {
        Stage::Fresh => {},
        Stage::StartSet => {
            let v = k.incoming->0;
            if let Value::List(l) = v {
                let f = h.list_put(g.work, h.list(g.work) + h.list(l));
                assert(f.list(g.work) =~= w.start);
                assert(f.list(g.res) == res);
                assert(f.work(g.keys) == h.work(g.keys));
                let out = Generic { stage: Stage::Operator, ..g };
                assert(res =~= Seq::empty());
                assert(w.start.take(0) =~= Seq::empty());
                assert(res.take(0) =~= res);
                assert(w.start + reached(w, res) =~= w.start);
                lemma_nothing_keyed(w, res, h.work(g.keys));
                assert(stands(w, f, out));
                lemma_operator_asked(w, f, g, args);
            }
        },
        Stage::Operator => {
            lemma_next_element(w, h, Generic { op: w.op, ..g });
        },
        Stage::Elem => {
            lemma_key_asked(w, h, g, k.incoming->0, args);
        },
        Stage::Key => {
            let v = k.incoming->0;
            let at = Generic { key: v, ..g };
            let keys = h.work(g.keys);
            assert(bounded(w, keys, v, 0, keys.len() as int));
            lemma_key_sought(w, h, at, 0, keys.len() as usize);
        },
        Stage::Probe => lemma_probe(w, k, args),
        Stage::OpResult => {
            if let Value::List(l) = k.incoming->0 {
                lemma_force_pending(w, h, Generic { pending: l, pi: 0, ..g });
            }
        },
        Stage::OpElem => lemma_force_pending(w, h, Generic { pi: bump(g.pi), ..g }),
    }
}

proof fn lemma_nothing_keyed(w: World, res: Seq<Slot>, keys: Seq<Item>)
    requires
        res.len() == 0,
        keys.len() == 0,
    ensures
        keyed(w, res, keys),
{
}

/// Asking for the operator leaves the lists alone.
proof fn lemma_operator_asked(w: World, f: HeapView, g: Generic, args: usize)
    requires
        stands(w, f, Generic { stage: Stage::Operator, ..g }),
    ensures
        match f.arg_attrs(args, 0) {
            (_, Err(_)) => true,
            (h, Ok(m)) => match h.attr(m, "operator"@) {
                (_, None) => true,
                (h, Some(_)) => stands(w, h, Generic { stage: Stage::Operator, ..g }) && h.list(
                    g.res,
                ) == f.list(g.res),
            },
        },
{
}

/// Asking for a key leaves the lists alone.
proof fn lemma_key_asked(w: World, h: HeapView, g: Generic, v: Value, args: usize)
    requires
        stands(w, h, g),
        g.stage == Stage::Elem,
    ensures
        goes_on(w, h.list(g.res), h.step_generic(g, args, Some(v))),
{
}

proof fn lemma_closure_run(w: World, args: usize, run: Seq<ClosureStep>, k: int)
    requires
        orders(w.order),
        w.start.len() > 0,
        closure_run(w, args, run),
        0 <= k < run.len(),
    ensures
        stands(w, run[k].heap, run[k].g),
        countable(run[k].heap, run[k].g),
        run[k].g.stage == Stage::Fresh ==> run[k].incoming is None,
        run[k].g.stage == Stage::Fresh || answered(w, run[k]),
        run[k].heap.list(run[k].g.res) == applied(args, run, k),
    decreases k,
{
    if k == 0 {
        assert(run[0].heap.list(run[0].g.res) =~= applied(args, run, 0));
    } else {
        lemma_closure_run(w, args, run, k - 1);
        lemma_closure_step(w, run[k - 1], args);
        assert(closure_follows(w, args, run[k - 1], run[k]));
        let (h, (c, y)) = run[k - 1].taken(args);
        assert(goes_on(w, applied(args, run, k - 1), (h, (c, y))));
        lemma_stands_kept(w, h, run[k].heap, run[k].g);
    }
}

/// What leaves the lists of a run alone leaves it where it stands.
proof fn lemma_stands_kept(w: World, h: HeapView, f: HeapView, g: Generic)
    requires
        stands(w, h, g),
        set_up(f, g),
        f.list(g.work) == h.list(g.work),
        f.list(g.res) == h.list(g.res),
        f.work(g.keys) == h.work(g.keys),
        f.list(g.pending) == h.list(g.pending),
    ensures
        stands(w, f, g),
{
}

// -- what was found ----------------------------------------------------------

/// Whether some elements stand in a queue, in its order.
pub open spec fn in_queue_order(some: Seq<Slot>, queue: Seq<Slot>) -> bool {
    exists|at: Seq<int>| #[trigger] picks(at, some, queue)
}

/// Whether rising positions of a queue hold these elements.
pub open spec fn picks(at: Seq<int>, some: Seq<Slot>, queue: Seq<Slot>) -> bool {
    &&& at.len() == some.len()
    &&& forall|i: int|
        0 <= i < at.len() ==> 0 <= #[trigger] at[i] < queue.len() && queue[at[i]] == some[i]
    &&& forall|i: int, j: int| 0 <= i < j < at.len() ==> #[trigger] at[i] < #[trigger] at[j]
}

/// Taking the first of each key from a queue takes every key, no key twice, and
/// keeps the order of the queue.
pub proof fn law_firsts_have_each_key_once(w: World, queue: Seq<Slot>)
    requires
        orders(w.order),
    ensures
        forall|i: int, j: int|
            0 <= i < firsts(w, queue).len() && 0 <= j < firsts(w, queue).len() && i != j
                ==> !same_key(w, #[trigger] firsts(w, queue)[i], #[trigger] firsts(w, queue)[j]),
        forall|i: int|
            0 <= i < queue.len() ==> has_key(w, firsts(w, queue), #[trigger] queue[i]),
        in_queue_order(firsts(w, queue), queue),
    decreases queue.len(),
{
    let all = firsts(w, queue);
    if queue.len() == 0 {
        assert(picks(Seq::empty(), all, queue));
    } else {
        let low = queue.drop_last();
        let before = firsts(w, low);
        let x = queue.last();
        law_firsts_have_each_key_once(w, low);
        let at = choose|at: Seq<int>| #[trigger] picks(at, before, low);
        let more = if has_key(w, before, x) {
            at
        } else {
            at.push(queue.len() - 1)
        };
        assert forall|i: int| 0 <= i < more.len() implies 0 <= #[trigger] more[i] < queue.len()
            && queue[more[i]] == all[i] by {
            if i < at.len() {
                assert(more[i] == at[i]);
                assert(low[at[i]] == queue[at[i]]);
            }
        }
        assert forall|i: int, j: int| 0 <= i < j < more.len() implies #[trigger] more[i]
            < #[trigger] more[j] by {
            assert(more[i] == at[i]);
            if j < at.len() {
                assert(more[j] == at[j]);
            }
        }
        assert(picks(more, all, queue));
        assert forall|i: int, j: int|
            0 <= i < all.len() && 0 <= j < all.len() && i != j implies !same_key(
            w,
            #[trigger] all[i],
            #[trigger] all[j],
        ) by {
            if i < before.len() && j < before.len() {
                assert(all[i] == before[i] && all[j] == before[j]);
            } else if i < before.len() {
                assert(all[i] == before[i]);
                assert(!same_key(w, x, before[i]));
                let (p, q) = ((w.key_of)(x), (w.key_of)(before[i]));
                assert((w.order)(q, p) == turned((w.order)(p, q)));
            } else {
                assert(all[j] == before[j]);
                assert(!same_key(w, x, before[j]));
            }
        }
        assert forall|i: int| 0 <= i < queue.len() implies has_key(
            w,
            all,
            #[trigger] queue[i],
        ) by {
            if i < low.len() {
                assert(queue[i] == low[i]);
                let j = choose|j: int|
                    0 <= j < before.len() && same_key(w, low[i], #[trigger] before[j]);
                assert(all[j] == before[j]);
            } else if has_key(w, before, x) {
                let j = choose|j: int|
                    0 <= j < before.len() && same_key(w, x, #[trigger] before[j]);
                assert(all[j] == before[j]);
            } else {
                assert(all[before.len() as int] == x);
                let p = (w.key_of)(x);
                assert((w.order)(p, p) == Order::Equal);
            }
        }
    }
}

/// What a `genericClosure` run hands out in the end, having been answered all
/// along: no two of its elements have equal keys; the key of every element of
/// the start set, and of everything that the operator leads to from a result,
/// is there; the operator was applied once to each result, in their order, and
/// to nothing else; and the results stand in the order of the queue, which is
/// the start set and then what each result led to, one after the other.
pub proof fn law_a_closure_is_closed(w: World, args: usize, run: Seq<ClosureStep>)
    requires
        orders(w.order),
        w.start.len() > 0,
        closure_run(w, args, run),
    ensures
        ({
            let (h, (c, y)) = run.last().taken(args);
            y matches Ok(Yield::Done(v)) ==> c is Generic && {
                let res = h.list(c->Generic_0.res);
                let queue = w.start + reached(w, res);
                &&& v == Value::List(c->Generic_0.res)
                &&& forall|i: int, j: int|
                    0 <= i < res.len() && 0 <= j < res.len() && i != j ==> !same_key(
                        w,
                        #[trigger] res[i],
                        #[trigger] res[j],
                    )
                &&& forall|i: int| 0 <= i < queue.len() ==> has_key(w, res, #[trigger] queue[i])
                &&& in_queue_order(res, queue)
                &&& res == applied(args, run, run.len() as int)
            }
        }),
        forall|k: int|
            0 <= k < run.len() ==> ((#[trigger] run[k]).taken(args).1.1 matches Ok(
                Yield::Apply(f, _),
            ) ==> f == w.op),
{
    assert forall|k: int| 0 <= k < run.len() implies ((#[trigger] run[k]).taken(
        args,
    ).1.1 matches Ok(Yield::Apply(f, _)) ==> f == w.op) by {
        lemma_closure_run(w, args, run, k);
        lemma_closure_step(w, run[k], args);
    }
    let k = run.len() - 1;
    lemma_closure_run(w, args, run, k);
    lemma_closure_step(w, run[k], args);
    let (h, (c, y)) = run.last().taken(args);
    if let Ok(Yield::Done(v)) = y {
        let res = h.list(c->Generic_0.res);
        law_firsts_have_each_key_once(w, w.start + reached(w, res));
        assert(applied(args, run, run.len() as int) == applied(args, run, k));
    }
}

/// A run starts with nothing taken and nothing found.
pub proof fn law_a_closure_starts_fresh(h: HeapView, args: usize)
    requires
        h.bi_generic_closure(args).0.lists.len() <= usize::MAX,
        h.bi_generic_closure(args).0.works.len() <= usize::MAX,
    ensures
        h.bi_generic_closure(args) matches (f, Ok(b)) ==> (b matches Begin::Cont(
            Cont::Generic(g),
        ) && {
            &&& g.stage == Stage::Fresh
            &&& g.taken == 0
            &&& set_up(f, g)
            &&& f.list(g.work).len() == 0
            &&& f.list(g.res).len() == 0
            &&& f.work(g.keys).len() == 0
        }),
{
}

} // verus!
