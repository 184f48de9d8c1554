use crate::shim::AtomicWaker;
use std::collections::VecDeque;
use vstd::prelude::*;

verus! {

/// A task that waits: its waker, and whether it is queued or has been cancelled.
pub struct AsyncSlot<W> {
    waker: AtomicWaker<W>,
    in_queue: bool,
    cancelled: bool,
    counted: bool,
}

/// A queue of waiting tasks with lazy cancellation.
///
/// A slot that is cancelled while queued stays as a tombstone until it reaches the front,
/// or until half of the queue is tombstones. The view lists the queued slots in order,
/// each with its waker (`None` for a tombstone), and the slots that a waiter still holds
/// but that are not queued.
pub struct AsyncList<W> {
    slots: Vec<AsyncSlot<W>>,
    free: Vec<usize>,
    queue: VecDeque<usize>,
    count: usize,
    cancelled_in_queue: usize,
    idle: Ghost<Set<usize>>,
}

/// What an [`AsyncList`] holds.
pub struct AsyncModel<W> {
    /// The queued slots, oldest first; `None` marks a tombstone.
    pub queue: Seq<(usize, Option<W>)>,
    /// The slots that are held by their waiters and not queued.
    pub idle: Set<usize>,
}

impl<W> AsyncModel<W> {
    pub open spec fn empty() -> Self {
        AsyncModel { queue: Seq::empty(), idle: Set::empty() }
    }

    /// Slot `id` stands, not cancelled, at place `k` of the queue.
    pub open spec fn at(self, id: usize, k: int) -> bool {
        0 <= k < self.queue.len() && self.queue[k].0 == id && self.queue[k].1 is Some
    }

    /// Slot `id` is queued and not cancelled.
    pub open spec fn has(self, id: usize) -> bool {
        exists|k: int| self.at(id, k)
    }

    /// Slot `id` is held by its waiter, queued or not.
    pub open spec fn holds(self, id: usize) -> bool {
        self.idle.contains(id) || self.has(id)
    }
}

/// How many tombstones are in the queue.
pub open spec fn dead<W>(q: Seq<(usize, Option<W>)>) -> nat
    decreases q.len(),
{
    if q.len() == 0 {
        0
    } else {
        (if q[0].1 is None { 1nat } else { 0nat }) + dead(q.drop_first())
    }
}

/// The queue without its tombstones.
pub open spec fn live<W>(q: Seq<(usize, Option<W>)>) -> Seq<(usize, Option<W>)>
    decreases q.len(),
{
    if q.len() == 0 {
        q
    } else if q[0].1 is None {
        live(q.drop_first())
    } else {
        seq![q[0]] + live(q.drop_first())
    }
}

/// The queue without the tombstones at its front.
pub open spec fn skip_dead<W>(q: Seq<(usize, Option<W>)>) -> Seq<(usize, Option<W>)>
    decreases q.len(),
{
    if q.len() > 0 && q[0].1 is None {
        skip_dead(q.drop_first())
    } else {
        q
    }
}

/// The queue after a sweep: no tombstone in front, and none at all once they are half of
/// what is left.
pub open spec fn swept<W>(q: Seq<(usize, Option<W>)>) -> Seq<(usize, Option<W>)> {
    let r = skip_dead(q);
    if dead(r) > 0 && dead(r) * 2 >= r.len() {
        live(r)
    } else {
        r
    }
}

/// The wakers of the slots that are not tombstones, oldest first.
pub open spec fn live_wakers<W>(q: Seq<(usize, Option<W>)>) -> Seq<W> {
    live(q).map_values(|p: (usize, Option<W>)| p.1->Some_0)
}

/// The queue with the slot `id` made a tombstone.
pub open spec fn marked<W>(q: Seq<(usize, Option<W>)>, id: usize) -> Seq<(usize, Option<W>)> {
    q.map_values(|p: (usize, Option<W>)| if p.0 == id { (id, None) } else { p })
}

pub proof fn lemma_dead_bound<W>(q: Seq<(usize, Option<W>)>)
    ensures
        dead(q) <= q.len(),
    decreases q.len(),
{
    if q.len() > 0 {
        lemma_dead_bound(q.drop_first());
    }
}

pub proof fn lemma_push<W>(q: Seq<(usize, Option<W>)>, e: (usize, Option<W>))
    ensures
        dead(q.push(e)) == dead(q) + if e.1 is None { 1nat } else { 0nat },
        live(q.push(e)) == if e.1 is None { live(q) } else { live(q).push(e) },
    decreases q.len(),
{
    reveal_with_fuel(dead, 2);
    reveal_with_fuel(live, 2);
    if q.len() == 0 {
        assert(q.push(e).drop_first() =~= Seq::empty());
        assert(seq![e] + Seq::<(usize, Option<W>)>::empty() =~= q.push(e));
        assert(live(q).push(e) =~= q.push(e));
    } else {
        lemma_push(q.drop_first(), e);
        assert(q.push(e).drop_first() =~= q.drop_first().push(e));
        if e.1 is Some && q[0].1 is Some {
            assert(seq![q[0]] + live(q.drop_first()).push(e) =~= (seq![q[0]] + live(
                q.drop_first(),
            )).push(e));
        }
    }
}

/// Sweeping the front keeps every live slot.
pub proof fn lemma_skip_dead<W>(q: Seq<(usize, Option<W>)>)
    ensures
        live(skip_dead(q)) == live(q),
        skip_dead(q).len() <= q.len(),
        skip_dead(q) == q.subrange(q.len() - skip_dead(q).len(), q.len() as int),
        skip_dead(q).len() > 0 ==> skip_dead(q)[0].1 is Some,
        forall|k: int| 0 <= k < q.len() - skip_dead(q).len() ==> (#[trigger] q[k]).1 is None,
    decreases q.len(),
{
    if q.len() > 0 && q[0].1 is None {
        let t = q.drop_first();
        lemma_skip_dead(t);
        let s = skip_dead(q);
        assert(t.subrange(t.len() - s.len(), t.len() as int) =~= q.subrange(
            q.len() - s.len(),
            q.len() as int,
        ));
        assert forall|k: int| 0 <= k < q.len() - s.len() implies (#[trigger] q[k]).1 is None by {
            if k > 0 {
                assert(t[k - 1].1 is None);
            }
        }
    } else {
        assert(q.subrange(0, q.len() as int) =~= q);
    }
}

/// A compacted queue has no tombstone and keeps every live slot.
pub proof fn lemma_live<W>(q: Seq<(usize, Option<W>)>)
    ensures
        dead(live(q)) == 0,
        live(live(q)) == live(q),
        live(q).len() + dead(q) == q.len(),
        forall|k: int| 0 <= k < live(q).len() ==> (#[trigger] live(q)[k]).1 is Some && q.contains(live(q)[k]),
        forall|k: int| 0 <= k < q.len() && (#[trigger] q[k]).1 is Some ==> live(q).contains(q[k]),
    decreases q.len(),
{
    if q.len() > 0 {
        let t = q.drop_first();
        lemma_live(t);
        if q[0].1 is Some {
            let l = live(q);
            assert(l.drop_first() =~= live(t));
            assert forall|k: int| 0 <= k < l.len() implies (#[trigger] l[k]).1 is Some && q.contains(l[k]) by {
                if k > 0 {
                    assert(live(t)[k - 1] == l[k]);
                    let j = choose|j: int| 0 <= j < t.len() && t[j] == l[k];
                    assert(q[j + 1] == l[k]);
                } else {
                    assert(q[0] == l[0]);
                }
            }
            assert forall|k: int| 0 <= k < q.len() && (#[trigger] q[k]).1 is Some implies l.contains(q[k]) by {
                if k > 0 {
                    assert(t[k - 1] == q[k]);
                    let j = choose|j: int| 0 <= j < live(t).len() && live(t)[j] == q[k];
                    assert(l[j + 1] == q[k]);
                } else {
                    assert(l[0] == q[0]);
                }
            }
            assert(live(l) =~= l);
        } else {
            let l = live(t);
            assert forall|k: int| 0 <= k < l.len() implies (#[trigger] l[k]).1 is Some && q.contains(l[k]) by {
                let j = choose|j: int| 0 <= j < t.len() && t[j] == l[k];
                assert(q[j + 1] == l[k]);
            }
            assert forall|k: int| 0 <= k < q.len() && (#[trigger] q[k]).1 is Some implies l.contains(q[k]) by {
                assert(t[k - 1] == q[k]);
            }
        }
    }
}

/// Turning the live slot at place `k` into a tombstone adds one tombstone.
pub proof fn lemma_mark<W>(q: Seq<(usize, Option<W>)>, id: usize, k: int)
    requires
        0 <= k < q.len(),
        q[k].0 == id,
        q[k].1 is Some,
        forall|i: int, j: int| 0 <= i < j < q.len() ==> q[i].0 != q[j].0,
    ensures
        marked(q, id) == q.update(k, (id, None)),
        dead(marked(q, id)) == dead(q) + 1,
    decreases q.len(),
{
    assert forall|i: int| 0 <= i < q.len() implies marked(q, id)[i] == q.update(k, (id, None))[i] by {
        if i < k {
            assert(q[i].0 != q[k].0);
        } else if k < i {
            assert(q[k].0 != q[i].0);
        }
    }
    assert(marked(q, id) =~= q.update(k, (id, None)));
    lemma_dead_update(q, id, k);
}

proof fn lemma_dead_update<W>(q: Seq<(usize, Option<W>)>, id: usize, k: int)
    requires
        0 <= k < q.len(),
        q[k].1 is Some,
    ensures
        dead(q.update(k, (id, None))) == dead(q) + 1,
    decreases q.len(),
{
    let u = q.update(k, (id, None));
    if k == 0 {
        assert(u.drop_first() =~= q.drop_first());
    } else {
        lemma_dead_update(q.drop_first(), id, k - 1);
        assert(u.drop_first() =~= q.drop_first().update(k - 1, (id, None)));
    }
}

proof fn lemma_dead_same<W>(q: Seq<(usize, Option<W>)>, k: int, e: (usize, Option<W>))
    requires
        0 <= k < q.len(),
        q[k].1 is Some,
        e.1 is Some,
    ensures
        dead(q.update(k, e)) == dead(q),
    decreases q.len(),
{
    let u = q.update(k, e);
    if k == 0 {
        assert(u.drop_first() =~= q.drop_first());
    } else {
        lemma_dead_same(q.drop_first(), k - 1, e);
        assert(u.drop_first() =~= q.drop_first().update(k - 1, e));
    }
}

impl<W> AsyncList<W> {
    spec fn entry(&self, k: int) -> (usize, Option<W>) {
        (self.queue@[k], self.slots@[self.queue@[k] as int].waker.stored())
    }

    pub closed spec fn view(&self) -> AsyncModel<W> {
        AsyncModel { queue: Seq::new(self.queue@.len(), |k: int| self.entry(k)), idle: self.idle@ }
    }

    spec fn queued_at(&self, k: int) -> bool {
        let i = self.queue@[k];
        &&& i < self.slots@.len()
        &&& self.slots@[i as int].in_queue
        &&& self.slots@[i as int].cancelled == (self.slots@[i as int].waker.stored() is None)
        &&& self.slots@[i as int].counted == self.slots@[i as int].cancelled
    }

    /// Everything but the two counters.
    spec fn shape(&self) -> bool {
        &&& self.queue@.no_duplicates()
        &&& forall|k: int| 0 <= k < self.queue@.len() ==> #[trigger] self.queued_at(k)
        &&& forall|i: usize|
            i < self.slots@.len() && (#[trigger] self.slots@[i as int]).in_queue ==> self.queue@.contains(i)
        &&& forall|i: usize|
            i < self.slots@.len() ==> {
                &&& (#[trigger] self.slots@[i as int]).waker.wf()
                &&& self.slots@[i as int].waker.state() is Waiting
            }
        &&& self.free@.no_duplicates()
        &&& forall|j: int| 0 <= j < self.free@.len() ==> {
            let i = #[trigger] self.free@[j];
            &&& i < self.slots@.len()
            &&& !self.slots@[i as int].in_queue
            &&& !self.idle@.contains(i)
        }
        &&& forall|i: usize|
            #[trigger] self.idle@.contains(i) ==> i < self.slots@.len() && !self.slots@[i as int].in_queue
                && !self.slots@[i as int].cancelled
    }

    /// The queue, the slots and the counters agree.
    pub closed spec fn wf(&self) -> bool {
        &&& self.shape()
        &&& self.count == self.queue@.len()
        &&& self.cancelled_in_queue == dead(self@.queue)
    }

    /// The queued slots are distinct, and none of them is idle.
    pub proof fn lemma_wf(&self)
        requires
            self.wf(),
        ensures
            forall|i: int, j: int|
                0 <= i < j < self@.queue.len() ==> self@.queue[i].0 != self@.queue[j].0,
            forall|k: int|
                0 <= k < self@.queue.len() ==> !self@.idle.contains((#[trigger] self@.queue[k]).0),
    {
        assert forall|k: int| 0 <= k < self@.queue.len() implies !self@.idle.contains(
            (#[trigger] self@.queue[k]).0,
        ) by {
            assert(self.queued_at(k));
        }
    }

    pub fn new() -> (l: Self)
        ensures
            l.wf(),
            l@ == AsyncModel::<W>::empty(),
    {
        let l = AsyncList {
            slots: Vec::new(),
            free: Vec::new(),
            queue: VecDeque::new(),
            count: 0,
            cancelled_in_queue: 0,
            idle: Ghost(Set::empty()),
        };
        assert(l@.queue =~= Seq::empty());
        l
    }

    /// How many slots are queued, tombstones counted.
    pub fn len(&self) -> (n: usize)
        requires
            self.wf(),
        ensures
            n == self@.queue.len(),
    {
        self.count
    }

    /// Queues a new slot for `waker`.
    pub fn push(&mut self, waker: W) -> (id: usize)
        requires
            old(self).wf(),
        ensures
            final(self).wf(),
            !old(self)@.holds(id),
            final(self)@.queue == old(self)@.queue.push((id, Some(waker))),
            final(self)@.idle == old(self)@.idle,
    {
        let ghost pre = *self;
        let mut cell = AtomicWaker::new();
        let _ = cell.register(waker);
        let slot = AsyncSlot { waker: cell, in_queue: true, cancelled: false, counted: false };
        let id: usize = match self.free.pop() {
            Some(id) => {
                self.slots.set(id, slot);
                id
            },
            None => {
                let id: usize = self.slots.len();
                self.slots.push(slot);
                id
            },
        };
        proof {
            assert forall|k: int| 0 <= k < pre.queue@.len() implies pre.queue@[k] != id by {
                assert(pre.queued_at(k));
            }
        }
        self.queue.push_back(id);
        self.count = self.queue.len();
        proof {
            assert forall|k: int| 0 <= k < self.queue@.len() implies #[trigger] self.queued_at(k) by {
                if k < pre.queue@.len() {
                    assert(pre.queued_at(k));
                }
            }
            assert forall|k: int| #[trigger] pre@.at(id, k) implies false by {
                assert(pre.queued_at(k));
            }
            assert forall|i: usize|
                i < self.slots@.len() && (#[trigger] self.slots@[i as int]).in_queue implies self.queue@.contains(
                i,
            ) by {
                if i == id {
                    assert(self.queue@[pre.queue@.len() as int] == i);
                } else {
                    assert(pre.slots@[i as int].in_queue);
                    let k = choose|k: int| 0 <= k < pre.queue@.len() && pre.queue@[k] == i;
                    assert(self.queue@[k] == i);
                }
            }
            assert forall|k: int| 0 <= k < pre.queue@.len() implies self@.queue[k] == pre@.queue[k] by {
                assert(pre.queued_at(k));
                assert(self.queued_at(k));
            }
            assert(self@.queue =~= pre@.queue.push((id, Some(waker))));
            lemma_push(pre@.queue, (id, Some(waker)));
        }
        id
    }

    /// Slot `id` is queued.
    pub fn is_queued(&self, id: usize) -> (b: bool)
        requires
            self.wf(),
            self@.holds(id),
        ensures
            b == self@.has(id),
    {
        proof {
            if self@.has(id) {
                let k = choose|k: int| self@.at(id, k);
                assert(self.queued_at(k));
            }
        }
        self.slots[id].in_queue
    }

    /// Replaces the waker of queued slot `id`; its place in the queue stays.
    pub fn register(&mut self, id: usize, waker: W)
        requires
            old(self).wf(),
            old(self)@.has(id),
        ensures
            final(self).wf(),
            final(self)@.idle == old(self)@.idle,
            final(self)@.queue.len() == old(self)@.queue.len(),
            forall|k: int|
                0 <= k < old(self)@.queue.len() ==> #[trigger] final(self)@.queue[k] == if old(
                    self,
                )@.queue[k].0 == id {
                    (id, Some(waker))
                } else {
                    old(self)@.queue[k]
                },
    {
        let ghost pre = *self;
        proof {
            let k = choose|k: int| self@.at(id, k);
            assert(self.queued_at(k));
        }
        let _ = self.slots[id].waker.register(waker);
        proof {
            let m = choose|k: int| pre@.at(id, k);
            assert forall|k: int| 0 <= k < self.queue@.len() implies #[trigger] self.queued_at(k) by {
                assert(pre.queued_at(k));
                assert(pre.queued_at(m));
                if k != m {
                    assert(pre.queue@[k] != pre.queue@[m]);
                }
            }
            assert forall|k: int| 0 <= k < pre@.queue.len() implies #[trigger] self@.queue[k] == if pre@.queue[k].0
                == id {
                (id, Some(waker))
            } else {
                pre@.queue[k]
            } by {
                assert(pre.queued_at(k));
            }
            assert(self@.queue =~= pre@.queue.update(m, (id, Some(waker)))) by {
                assert forall|k: int| 0 <= k < pre@.queue.len() && k != m implies pre@.queue[k].0 != id by {
                    assert(pre.queue@[k] != pre.queue@[m]);
                }
            }
            lemma_dead_same(pre@.queue, m, (id, Some(waker)));
        }
    }

    /// Takes the oldest slot off the queue: a tombstone is done with, a live slot gives
    /// up its waker and stays with its waiter.
    fn drop_front(&mut self) -> (r: Option<W>)
        requires
            old(self).wf(),
            old(self)@.queue.len() > 0,
        ensures
            final(self).wf(),
            r == old(self)@.queue[0].1,
            final(self)@.queue == old(self)@.queue.drop_first(),
            final(self)@.idle == if r is Some {
                old(self)@.idle.insert(old(self)@.queue[0].0)
            } else {
                old(self)@.idle
            },
    {
        let ghost pre = *self;
        let ghost id = self.queue@[0];
        proof {
            assert(pre.queued_at(0));
            lemma_dead_bound(pre@.queue);
        }
        match self.queue.pop_front() {
            None => None,
            Some(i) => {
                let w = self.slots[i].waker.take();
                self.slots[i].in_queue = false;
                self.count = self.queue.len();
                if self.slots[i].counted {
                    self.slots[i].counted = false;
                    self.cancelled_in_queue = self.cancelled_in_queue - 1;
                }
                if self.slots[i].cancelled {
                    self.free.push(i);
                } else {
                    self.idle = Ghost(self.idle@.insert(i));
                }
                proof {
                    assert forall|k: int| 0 <= k < self.queue@.len() implies #[trigger] self.queued_at(k) by {
                        assert(pre.queued_at(k + 1));
                        assert(pre.queue@[k + 1] != pre.queue@[0]);
                    }
                    assert forall|j: usize|
                        j < self.slots@.len() && (#[trigger] self.slots@[j as int]).in_queue implies self.queue@.contains(
                        j,
                    ) by {
                        assert(pre.slots@[j as int].in_queue);
                        let k = choose|k: int| 0 <= k < pre.queue@.len() && pre.queue@[k] == j;
                        assert(self.queue@[k - 1] == j);
                    }
                    assert forall|k: int| 0 <= k < self.queue@.len() implies self@.queue[k] == pre@.queue.drop_first()[k] by {
                        assert(pre.queued_at(k + 1));
                        assert(self.queued_at(k));
                        assert(pre.queue@[k + 1] != pre.queue@[0]);
                    }
                    assert(self@.queue =~= pre@.queue.drop_first());
                    assert forall|j: int, m: int|
                        0 <= j < self.queue@.len() && 0 <= m < self.queue@.len() && j != m implies self.queue@[j]
                        != self.queue@[m] by {
                        assert(pre.queue@[j + 1] != pre.queue@[m + 1]);
                    }
                }
                w
            },
        }
    }

    /// The oldest slot is a tombstone.
    fn front_is_dead(&self) -> (b: bool)
        requires
            self.wf(),
        ensures
            b == (self@.queue.len() > 0 && self@.queue[0].1 is None),
    {
        if self.queue.len() == 0 {
            false
        } else {
            proof {
                assert(self.queued_at(0));
            }
            self.slots[self.queue[0]].cancelled
        }
    }

    /// Takes the oldest slot off the queue and, unless it is a tombstone, puts it back at
    /// the end.
    fn rotate(&mut self)
        requires
            old(self).wf(),
            old(self)@.queue.len() > 0,
        ensures
            final(self).wf(),
            final(self)@.idle == old(self)@.idle,
            final(self)@.queue == if old(self)@.queue[0].1 is None {
                old(self)@.queue.drop_first()
            } else {
                old(self)@.queue.drop_first().push(old(self)@.queue[0])
            },
    {
        let ghost pre = *self;
        if self.front_is_dead() {
            let _ = self.drop_front();
        } else {
            proof {
                assert(pre.queued_at(0));
            }
            match self.queue.pop_front() {
                None => {},
                Some(i) => {
                    self.queue.push_back(i);
                },
            }
            proof {
                let n = pre.queue@.len() as int;
                assert(self.queue@ =~= pre.queue@.drop_first().push(pre.queue@[0]));
                assert forall|k: int| 0 <= k < self.queue@.len() implies #[trigger] self.queued_at(k) by {
                    assert(pre.queued_at(if k + 1 < n { k + 1 } else { 0 }));
                }
                assert forall|j: usize|
                    j < self.slots@.len() && (#[trigger] self.slots@[j as int]).in_queue implies self.queue@.contains(
                    j,
                ) by {
                    assert(pre.slots@[j as int].in_queue);
                    let k = choose|k: int| 0 <= k < n && pre.queue@[k] == j;
                    assert(self.queue@[if k > 0 { k - 1 } else { n - 1 }] == j);
                }
                assert forall|k: int| 0 <= k < n implies self@.queue[k] == pre@.queue.drop_first().push(
                    pre@.queue[0],
                )[k] by {
                    assert(pre.queued_at(if k + 1 < n { k + 1 } else { 0 }));
                    assert(self.queued_at(k));
                }
                assert(self@.queue =~= pre@.queue.drop_first().push(pre@.queue[0]));
                lemma_push(pre@.queue.drop_first(), pre@.queue[0]);
                assert forall|j: int, m: int|
                    0 <= j < n && 0 <= m < n && j != m implies self.queue@[j] != self.queue@[m] by {
                    let a = if j + 1 < n { j + 1 } else { 0 };
                    let b = if m + 1 < n { m + 1 } else { 0 };
                    assert(pre.queue@[a] != pre.queue@[b]);
                }
            }
        }
    }

    /// Takes the oldest waiter off the queue, passing over tombstones.
    pub fn pop(&mut self) -> (r: Option<W>)
        requires
            old(self).wf(),
        ensures
            final(self).wf(),
            ({
                let q = skip_dead(old(self)@.queue);
                if q.len() == 0 {
                    &&& r is None
                    &&& final(self)@.queue == q
                    &&& final(self)@.idle == old(self)@.idle
                } else {
                    &&& r is Some
                    &&& r == q[0].1
                    &&& final(self)@.queue == q.drop_first()
                    &&& final(self)@.idle == old(self)@.idle.insert(q[0].0)
                }
            }),
    {
        let ghost q0 = self@.queue;
        proof {
            lemma_skip_dead(q0);
        }
        while self.count > 0
            invariant
                self.wf(),
                skip_dead(self@.queue) == skip_dead(q0),
                self@.idle == old(self)@.idle,
                q0 == old(self)@.queue,
            decreases self@.queue.len(),
        {
            let r = self.drop_front();
            if r.is_some() {
                return r;
            }
        }
        None
    }

    /// Takes every slot off the queue and hands out the live wakers, oldest first.
    pub fn drain(&mut self, out: &mut Vec<W>)
        requires
            old(self).wf(),
        ensures
            final(self).wf(),
            final(self)@.queue.len() == 0,
            final(out)@ == old(out)@ + live_wakers(old(self)@.queue),
            forall|id: usize|
                final(self)@.idle.contains(id) <==> old(self)@.idle.contains(id) || old(self)@.has(id),
    {
        let ghost pre = self@;
        let ghost base = out@;
        proof {
            assert(pre.queue.subrange(0, 0) =~= Seq::empty());
            assert(live_wakers(pre.queue.subrange(0, 0)) =~= Seq::empty());
            assert(base =~= base + live_wakers(pre.queue.subrange(0, 0)));
            assert(pre.queue.subrange(0, pre.queue.len() as int) =~= pre.queue);
        }
        let ghost mut j: int = 0;
        while self.count > 0
            invariant
                self.wf(),
                pre == old(self)@,
                base == old(out)@,
                0 <= j <= pre.queue.len(),
                self@.queue == pre.queue.subrange(j, pre.queue.len() as int),
                out@ == base + live_wakers(pre.queue.subrange(0, j)),
                forall|id: usize|
                    #[trigger] self@.idle.contains(id) <==> pre.idle.contains(id) || exists|k: int|
                        0 <= k < j && #[trigger] pre.at(id, k),
            decreases self@.queue.len(),
        {
            let ghost mid = self@;
            match self.drop_front() {
                None => {},
                Some(w) => out.push(w),
            }
            proof {
                let e = pre.queue[j];
                let a = pre.queue.subrange(0, j);
                lemma_push(a, e);
                assert(pre.queue.subrange(0, j + 1) =~= a.push(e));
                assert(out@ =~= base + live_wakers(a.push(e)));
                assert(mid.queue[0] == e);
                assert(mid.queue.drop_first() =~= pre.queue.subrange(j + 1, pre.queue.len() as int));
                assert forall|id: usize|
                    #[trigger] self@.idle.contains(id) <==> pre.idle.contains(id) || exists|k: int|
                        0 <= k < j + 1 && #[trigger] pre.at(id, k) by {
                    if e.1 is Some && id == e.0 {
                        assert(pre.at(id, j));
                    }
                    if exists|k: int| 0 <= k < j + 1 && #[trigger] pre.at(id, k) {
                        let k = choose|k: int| 0 <= k < j + 1 && #[trigger] pre.at(id, k);
                        if k < j {
                            assert(pre.at(id, k));
                        }
                    }
                    if exists|k: int| 0 <= k < j && #[trigger] pre.at(id, k) {
                        let k = choose|k: int| 0 <= k < j && #[trigger] pre.at(id, k);
                        assert(0 <= k < j + 1 && pre.at(id, k));
                    }
                }
                j = j + 1;
            }
        }
        proof {
            assert(j == pre.queue.len());
        }
    }

    /// Gives up idle slot `id`.
    pub fn drop_slot(&mut self, id: usize)
        requires
            old(self).wf(),
            old(self)@.idle.contains(id),
        ensures
            final(self).wf(),
            final(self)@.queue == old(self)@.queue,
            final(self)@.idle == old(self)@.idle.remove(id),
            !final(self)@.holds(id),
    {
        let ghost pre = *self;
        self.free.push(id);
        self.idle = Ghost(self.idle@.remove(id));
        proof {
            assert forall|k: int| 0 <= k < self.queue@.len() implies #[trigger] self.queued_at(k) by {
                assert(pre.queued_at(k));
            }
            assert(self@.queue =~= pre@.queue);
            assert forall|k: int| #[trigger] self@.at(id, k) implies false by {
                assert(pre.queued_at(k));
            }
        }
    }

    /// Turns queued slot `id` into a tombstone.
    fn mark(&mut self, id: usize)
        requires
            old(self).wf(),
            old(self)@.has(id),
        ensures
            final(self).wf(),
            final(self)@.idle == old(self)@.idle,
            final(self)@.queue == marked(old(self)@.queue, id),
    {
        let ghost pre = *self;
        let ghost m = choose|k: int| pre@.at(id, k);
        proof {
            assert(self.queued_at(m));
            self.lemma_wf();
            lemma_mark(pre@.queue, id, m);
            lemma_dead_bound(marked(pre@.queue, id));
        }
        self.slots[id].cancelled = true;
        let _ = self.slots[id].waker.take();
        if !self.slots[id].counted {
            self.slots[id].counted = true;
            self.cancelled_in_queue = self.cancelled_in_queue + 1;
        }
        proof {
            assert forall|k: int| 0 <= k < self.queue@.len() implies #[trigger] self.queued_at(k) by {
                assert(pre.queued_at(k));
                if k != m {
                    assert(pre.queue@[k] != pre.queue@[m]);
                }
            }
            assert forall|k: int| 0 <= k < self.queue@.len() implies self@.queue[k] == pre@.queue.update(
                m,
                (id, None),
            )[k] by {
                assert(pre.queued_at(k));
                if k != m {
                    assert(pre.queue@[k] != pre.queue@[m]);
                }
            }
            assert(self@.queue =~= pre@.queue.update(m, (id, None)));
        }
    }

    /// Gives up slot `id` and sweeps the queue: tombstones at the front go, and all of
    /// them go once they are half of the queue or more.
    pub fn cancel(&mut self, id: usize)
        requires
            old(self).wf(),
            old(self)@.holds(id),
        ensures
            final(self).wf(),
            final(self)@.queue == swept(marked(old(self)@.queue, id)),
            final(self)@.idle == old(self)@.idle.remove(id),
    {
        let ghost pre = *self;
        if self.is_queued(id) {
            self.mark(id);
            proof {
                pre.lemma_wf();
                let k = choose|k: int| pre@.at(id, k);
                assert(!pre@.idle.contains(pre@.queue[k].0));
                assert(pre@.idle.remove(id) =~= pre@.idle);
            }
        } else {
            self.drop_slot(id);
            proof {
                assert forall|k: int| 0 <= k < pre@.queue.len() implies marked(pre@.queue, id)[k] == pre@.queue[k] by {
                    pre.lemma_wf();
                    assert(!pre@.idle.contains(pre@.queue[k].0));
                }
                assert(marked(pre@.queue, id) =~= pre@.queue);
            }
        }
        let ghost q1 = self@.queue;
        while self.front_is_dead()
            invariant
                self.wf(),
                self@.idle == old(self)@.idle.remove(id),
                skip_dead(self@.queue) == skip_dead(q1),
            decreases self@.queue.len(),
        {
            let _ = self.drop_front();
        }
        let ghost q2 = self@.queue;
        proof {
            lemma_dead_bound(q2);
        }
        let dead_now: usize = self.cancelled_in_queue;
        if dead_now > 0 && dead_now >= self.queue.len() - dead_now {
            let n: usize = self.queue.len();
            let mut j: usize = 0;
            proof {
                assert(q2 =~= q2.subrange(0, n as int) + live(q2.subrange(0, 0)));
            }
            while j < n
                invariant
                    self.wf(),
                    self@.idle == old(self)@.idle.remove(id),
                    n == q2.len(),
                    j <= n,
                    self@.queue == q2.subrange(j as int, n as int) + live(q2.subrange(0, j as int)),
                decreases n - j,
            {
                proof {
                    let a = q2.subrange(0, j as int);
                    assert(q2.subrange(0, j + 1) =~= a.push(q2[j as int]));
                    lemma_push(a, q2[j as int]);
                    assert(self@.queue[0] == q2[j as int]);
                }
                self.rotate();
                proof {
                    assert(self@.queue =~= q2.subrange(j + 1, n as int) + live(q2.subrange(0, j + 1)));
                }
                j = j + 1;
            }
            proof {
                assert(q2.subrange(0, n as int) =~= q2);
                assert(self@.queue =~= live(q2));
            }
        }
    }
}

} // verus!
