use super::async_list::{
    dead, lemma_skip_dead, live, live_wakers, marked, skip_dead, swept, AsyncList, AsyncModel,
};
use crate::waiters::{without, ListModel, SyncRawList};
use vstd::prelude::*;

verus! {

/// The waiters on one side of a channel: parked threads and pending tasks.
///
/// Waking prefers tasks; among threads and among tasks it goes by age. Whom to wake is
/// handed out, so that the caller can wake after it has let go of the list.
pub struct SyncList<W> {
    blocking: SyncRawList<W>,
    blocking_count: usize,
    tasks: AsyncList<W>,
}

/// What a [`SyncList`] holds.
pub struct WaitModel<W> {
    /// The parked threads.
    pub blocking: ListModel<W>,
    /// The pending tasks.
    pub tasks: AsyncModel<W>,
}

impl<W> WaitModel<W> {
    pub open spec fn empty() -> Self {
        WaitModel { blocking: ListModel::empty(), tasks: AsyncModel::empty() }
    }

    /// A thread or a task is queued, tombstones counted.
    pub open spec fn has_waiters(self) -> bool {
        self.tasks.queue.len() > 0 || self.blocking.linked.len() > 0
    }

    /// A thread or a task is queued that a wake-up would reach.
    pub open spec fn has_live_waiter(self) -> bool {
        skip_dead(self.tasks.queue).len() > 0 || self.blocking.linked.len() > 0
    }

    /// The list with its oldest task taken off, and that task's waker.
    pub open spec fn pop_task(self) -> (Self, Option<W>) {
        let q = skip_dead(self.tasks.queue);
        if q.len() == 0 {
            (WaitModel { tasks: AsyncModel { queue: q, ..self.tasks }, ..self }, None)
        } else {
            (
                WaitModel {
                    tasks: AsyncModel {
                        queue: q.drop_first(),
                        idle: self.tasks.idle.insert(q[0].0),
                    },
                    ..self
                },
                q[0].1,
            )
        }
    }

    /// The list with its oldest thread taken off, and that thread.
    pub open spec fn pop_thread(self) -> (Self, Option<W>) {
        let l = self.blocking.linked;
        if l.len() == 0 {
            (self, None)
        } else {
            (
                WaitModel {
                    blocking: ListModel {
                        linked: l.drop_first(),
                        idle: self.blocking.idle.insert(l[0].0),
                    },
                    ..self
                },
                Some(l[0].1),
            )
        }
    }

    /// One wake-up that looks among the tasks if `a`, and then among the threads if `b`.
    pub open spec fn notified_if(self, a: bool, b: bool) -> (Self, Option<W>) {
        let (m, w) = if a { self.pop_task() } else { (self, None) };
        if w is None && b {
            m.pop_thread()
        } else {
            (m, w)
        }
    }

    /// One wake-up: the oldest live task, or else the oldest thread.
    pub open spec fn notified(self) -> (Self, Option<W>) {
        self.notified_if(self.tasks.queue.len() > 0, self.blocking.linked.len() > 0)
    }

    /// `n` wake-ups, and whom they reach.
    pub open spec fn notified_n(self, n: nat) -> (Self, Seq<W>)
        decreases n,
    {
        if n == 0 || !self.has_waiters() {
            (self, Seq::empty())
        } else {
            let (m, w) = self.notified();
            let (r, ws) = m.notified_n((n - 1) as nat);
            (r, opt_seq(w) + ws)
        }
    }

    /// The list with a thread queued up.
    pub open spec fn parked(self, node: usize, thread: W) -> Self {
        WaitModel {
            blocking: ListModel {
                linked: self.blocking.linked.push((node, thread)),
                idle: self.blocking.idle,
            },
            ..self
        }
    }

    /// The list with a thread gone.
    pub open spec fn unparked(self, node: usize) -> Self {
        WaitModel {
            blocking: ListModel {
                linked: without(self.blocking.linked, node),
                idle: self.blocking.idle.remove(node),
            },
            ..self
        }
    }

    /// The list with a task's slot given up, if it had one.
    pub open spec fn task_gone(self, slot: Option<usize>) -> Self {
        match slot {
            None => self,
            Some(id) => WaitModel {
                tasks: AsyncModel {
                    queue: swept(marked(self.tasks.queue, id)),
                    idle: self.tasks.idle.remove(id),
                },
                ..self
            },
        }
    }

    /// A task that had `slot` now waits in slot `id` with `waker`, and the list is `post`:
    /// it keeps its place if it was still queued and goes to the back if not.
    pub open spec fn task_waits(
        self,
        slot: Option<usize>,
        waker: W,
        id: usize,
        post: Self,
    ) -> bool {
        &&& post.blocking == self.blocking
        &&& post.tasks.has(id)
        &&& match slot {
            Some(old) => if self.tasks.has(old) {
                &&& id == old
                &&& post.tasks.idle == self.tasks.idle
                &&& post.tasks.queue == rewoken(self.tasks.queue, id, waker)
            } else {
                &&& post.tasks.idle == self.tasks.idle.remove(old)
                &&& post.tasks.queue == self.tasks.queue.push((id, Some(waker)))
            },
            None => {
                &&& !self.tasks.holds(id)
                &&& post.tasks.idle == self.tasks.idle
                &&& post.tasks.queue == self.tasks.queue.push((id, Some(waker)))
            },
        }
    }

    /// The list with everybody taken off it.
    pub open spec fn all_woken(self) -> Self {
        WaitModel {
            blocking: ListModel {
                linked: Seq::empty(),
                idle: Set::new(|id: usize| self.blocking.holds(id)),
            },
            tasks: AsyncModel {
                queue: Seq::empty(),
                idle: Set::new(|id: usize| self.tasks.holds(id)),
            },
        }
    }

    /// The waiters are distinct, and none of them is both queued and idle.
    pub open spec fn sound(self) -> bool {
        &&& forall|i: int, j: int|
            0 <= i < j < self.blocking.linked.len() ==> self.blocking.linked[i].0
                != self.blocking.linked[j].0
        &&& forall|k: int|
            0 <= k < self.blocking.linked.len() ==> !self.blocking.idle.contains(
                (#[trigger] self.blocking.linked[k]).0,
            )
        &&& forall|i: int, j: int|
            0 <= i < j < self.tasks.queue.len() ==> self.tasks.queue[i].0 != self.tasks.queue[j].0
        &&& forall|k: int|
            0 <= k < self.tasks.queue.len() ==> !self.tasks.idle.contains(
                (#[trigger] self.tasks.queue[k]).0,
            )
    }

    /// Everybody whom `wake_all` wakes: the threads, then the live tasks, by age.
    pub open spec fn everyone(self) -> Seq<W> {
        self.blocking.targets() + live_wakers(self.tasks.queue)
    }
}

/// The queue with the waker of slot `id` replaced.
pub open spec fn rewoken<W>(q: Seq<(usize, Option<W>)>, id: usize, waker: W) -> Seq<
    (usize, Option<W>),
> {
    q.map_values(|p: (usize, Option<W>)| if p.0 == id { (id, Some(waker)) } else { p })
}

/// The sequence of what an option holds.
pub open spec fn opt_seq<W>(w: Option<W>) -> Seq<W> {
    match w {
        Some(x) => seq![x],
        None => Seq::empty(),
    }
}

impl<W> SyncList<W> {
    pub closed spec fn view(&self) -> WaitModel<W> {
        WaitModel { blocking: self.blocking@, tasks: self.tasks@ }
    }

    pub closed spec fn wf(&self) -> bool {
        &&& self.blocking.wf()
        &&& self.tasks.wf()
        &&& self.blocking_count == self.blocking@.linked.len()
    }

    pub proof fn lemma_wf(&self)
        requires
            self.wf(),
        ensures
            self@.sound(),
    {
        self.blocking.lemma_wf();
        self.tasks.lemma_wf();
    }

    pub fn new() -> (l: Self)
        ensures
            l.wf(),
            l@ == WaitModel::<W>::empty(),
    {
        SyncList { blocking: SyncRawList::new(), blocking_count: 0, tasks: AsyncList::new() }
    }

    pub fn has_waiters(&self) -> (b: bool)
        requires
            self.wf(),
        ensures
            b == self@.has_waiters(),
    {
        self.tasks.len() > 0 || self.blocking_count > 0
    }

    /// Queues a parked thread; the result names it for [`SyncList::remove`].
    pub fn push_blocking(&mut self, thread: W) -> (node: usize)
        requires
            old(self).wf(),
        ensures
            final(self).wf(),
            !old(self)@.blocking.holds(node),
            final(self)@ == old(self)@.parked(node, thread),
    {
        let node: usize = self.blocking.new_node();
        self.blocking.push_back(node, thread);
        proof {
            self.blocking.lemma_wf();
            assert(self@.blocking.idle =~= old(self)@.blocking.idle);
        }
        self.blocking_count = self.blocking_count + 1;
        node
    }

    /// Takes a thread off the list, whether or not it has been woken, and forgets it.
    pub fn remove(&mut self, node: usize)
        requires
            old(self).wf(),
            old(self)@.blocking.holds(node),
        ensures
            final(self).wf(),
            !final(self)@.blocking.holds(node),
            final(self)@ == old(self)@.unparked(node),
    {
        let was_in = self.blocking.is_in_list(node);
        proof {
            if was_in {
                let k = choose|k: int| self.blocking@.at(node, k);
                self.blocking.lemma_wf();
                crate::waiters::lemma_without(self.blocking@.linked, node, k);
            } else {
                assert forall|k: int| 0 <= k < self.blocking@.linked.len() implies (
                #[trigger] self.blocking@.linked[k]).0 != node by {
                    if self.blocking@.linked[k].0 == node {
                        assert(self.blocking@.at(node, k));
                    }
                }
                crate::waiters::lemma_without_absent(self.blocking@.linked, node);
            }
        }
        self.blocking.remove(node);
        if was_in {
            self.blocking_count = self.blocking_count - 1;
        }
        self.blocking.drop_node(node);
        assert(self@.blocking.idle =~= old(self)@.blocking.idle.remove(node));
    }

    /// Queues a task; the result names its slot.
    pub fn push_async_slot(&mut self, waker: W) -> (slot: usize)
        requires
            old(self).wf(),
        ensures
            final(self).wf(),
            !old(self)@.tasks.holds(slot),
            final(self)@.blocking == old(self)@.blocking,
            final(self)@.tasks.queue == old(self)@.tasks.queue.push((slot, Some(waker))),
            final(self)@.tasks.idle == old(self)@.tasks.idle,
    {
        self.tasks.push(waker)
    }

    /// A task's slot is still queued, that is, it has not been woken.
    pub fn is_queued(&self, slot: usize) -> (b: bool)
        requires
            self.wf(),
            self@.tasks.holds(slot),
        ensures
            b == self@.tasks.has(slot),
    {
        self.tasks.is_queued(slot)
    }

    /// Has a task that held `slot` wait with `waker`: in its old place if it is still
    /// queued, at the back if it was woken meanwhile or held none.
    pub fn wait_async(&mut self, slot: Option<usize>, waker: W) -> (id: usize)
        requires
            old(self).wf(),
            slot is Some ==> old(self)@.tasks.holds(slot->Some_0),
        ensures
            final(self).wf(),
            old(self)@.task_waits(slot, waker, id, final(self)@),
    {
        match slot {
            None => {
                let id: usize = self.tasks.push(waker);
                assert(self@.tasks.at(id, self@.tasks.queue.len() - 1));
                id
            },
            Some(old_id) => {
                if self.tasks.is_queued(old_id) {
                    let ghost q = self@.tasks.queue;
                    let ghost k = choose|k: int| self.tasks@.at(old_id, k);
                    self.tasks.register(old_id, waker);
                    assert(self@.tasks.at(old_id, k));
                    assert(self@.tasks.queue =~= rewoken(q, old_id, waker));
                    old_id
                } else {
                    self.tasks.drop_slot(old_id);
                    let id: usize = self.tasks.push(waker);
                    assert(self@.tasks.at(id, self@.tasks.queue.len() - 1));
                    id
                }
            },
        }
    }

    /// Gives up a task's slot, if it holds one.
    pub fn cancel_slot(&mut self, slot: Option<usize>)
        requires
            old(self).wf(),
            slot is Some ==> old(self)@.tasks.holds(slot->Some_0),
        ensures
            final(self).wf(),
            final(self)@ == old(self)@.task_gone(slot),
    {
        match slot {
            None => {},
            Some(id) => self.cancel_async_slot(id),
        }
    }

    /// Gives up a task's slot, whether or not it has been woken, and sweeps the queue.
    pub fn cancel_async_slot(&mut self, slot: usize)
        requires
            old(self).wf(),
            old(self)@.tasks.holds(slot),
        ensures
            final(self).wf(),
            final(self)@.blocking == old(self)@.blocking,
            final(self)@.tasks.queue == swept(marked(old(self)@.tasks.queue, slot)),
            final(self)@.tasks.idle == old(self)@.tasks.idle.remove(slot),
    {
        self.tasks.cancel(slot);
    }

    /// How many slots are queued, tombstones counted.
    pub fn debug_async_queue_len(&self) -> (n: usize)
        requires
            self.wf(),
        ensures
            n == self@.tasks.queue.len(),
    {
        self.tasks.len()
    }

    pub fn async_count_seqcst(&self) -> (n: usize)
        requires
            self.wf(),
        ensures
            n == self@.tasks.queue.len(),
    {
        self.tasks.len()
    }

    pub fn blocking_count_acquire(&self) -> (n: usize)
        requires
            self.wf(),
        ensures
            n == self@.blocking.linked.len(),
    {
        self.blocking_count
    }

    /// Picks whom to wake, given the two counts as the caller last saw them: a task if
    /// `async_hint` is not 0 and a live one is queued, else a thread if `blocking_hint` is
    /// not 0.
    pub fn notify_one_if(&mut self, async_hint: usize, blocking_hint: usize) -> (r: Option<W>)
        requires
            old(self).wf(),
        ensures
            final(self).wf(),
            (final(self)@, r) == old(self)@.notified_if(async_hint > 0, blocking_hint > 0),
    {
        if async_hint > 0 {
            let r = self.tasks.pop();
            if r.is_some() {
                return r;
            }
        }
        if blocking_hint > 0 {
            let r = self.blocking.pop_front();
            if r.is_some() {
                self.blocking_count = self.blocking_count - 1;
            }
            return r;
        }
        None
    }

    /// Picks whom to wake: the oldest live task, or else the oldest thread.
    pub fn notify_one(&mut self) -> (r: Option<W>)
        requires
            old(self).wf(),
        ensures
            final(self).wf(),
            (final(self)@, r) == old(self)@.notified(),
    {
        let a: usize = self.tasks.len();
        let b: usize = self.blocking_count;
        self.notify_one_if(a, b)
    }

    pub fn wake_one(&mut self) -> (r: Option<W>)
        requires
            old(self).wf(),
        ensures
            final(self).wf(),
            (final(self)@, r) == old(self)@.notified(),
    {
        self.notify_one()
    }

    /// Picks up to `n` waiters to wake and adds them to `out`.
    pub fn notify_n(&mut self, n: usize, out: &mut Vec<W>)
        requires
            old(self).wf(),
        ensures
            final(self).wf(),
            final(self)@ == old(self)@.notified_n(n as nat).0,
            final(out)@ == old(out)@ + old(self)@.notified_n(n as nat).1,
    {
        let ghost goal = self@.notified_n(n as nat);
        let ghost base = out@;
        let mut i: usize = 0;
        assert(base =~= base + Seq::<W>::empty());
        while i < n
            invariant
                i <= n,
                self.wf(),
                goal == old(self)@.notified_n(n as nat),
                base == old(out)@,
                self@.notified_n((n - i) as nat).0 == goal.0,
                out@ + self@.notified_n((n - i) as nat).1 == base + goal.1,
            decreases n - i,
        {
            if !self.has_waiters() {
                assert(out@ =~= out@ + Seq::<W>::empty());
                return;
            }
            let ghost before = out@;
            let ghost w = self@.notified().1;
            let ghost rest = self@.notified().0.notified_n((n - i - 1) as nat).1;
            match self.notify_one() {
                Some(k) => {
                    out.push(k);
                },
                None => {},
            }
            proof {
                assert(before + (opt_seq(w) + rest) =~= out@ + rest);
            }
            i = i + 1;
        }
        assert(out@ + Seq::<W>::empty() =~= out@);
    }

    /// Takes everybody off the list and adds them to `out`: threads, then live tasks.
    pub fn wake_all(&mut self, out: &mut Vec<W>)
        requires
            old(self).wf(),
        ensures
            final(self).wf(),
            final(self)@ == old(self)@.all_woken(),
            final(out)@ == old(out)@ + old(self)@.everyone(),
    {
        let ghost pre = self@;
        let ghost base = out@;
        let ghost mut j: int = 0;
        proof {
            assert(pre.blocking.targets().subrange(0, 0) =~= Seq::empty());
            assert(base =~= base + pre.blocking.targets().subrange(0, 0));
            assert(pre.blocking.linked.subrange(0, pre.blocking.linked.len() as int)
                =~= pre.blocking.linked);
        }
        while self.blocking_count > 0
            invariant
                self.wf(),
                pre == old(self)@,
                base == old(out)@,
                0 <= j <= pre.blocking.linked.len(),
                self@.tasks == pre.tasks,
                self@.blocking.linked == pre.blocking.linked.subrange(
                    j,
                    pre.blocking.linked.len() as int,
                ),
                out@ == base + pre.blocking.targets().subrange(0, j),
                forall|id: usize|
                    #[trigger] self@.blocking.idle.contains(id) <==> pre.blocking.idle.contains(id)
                        || exists|k: int| 0 <= k < j && #[trigger] pre.blocking.at(id, k),
            decreases self@.blocking.linked.len(),
        {
            let ghost mid = self@;
            match self.blocking.pop_front() {
                Some(k) => {
                    out.push(k);
                    self.blocking_count = self.blocking_count - 1;
                },
                None => {},
            }
            proof {
                let e = pre.blocking.linked[j];
                assert(mid.blocking.linked[0] == e);
                assert(mid.blocking.linked.drop_first() =~= pre.blocking.linked.subrange(
                    j + 1,
                    pre.blocking.linked.len() as int,
                ));
                assert(pre.blocking.targets().subrange(0, j + 1)
                    =~= pre.blocking.targets().subrange(0, j).push(e.1));
                assert(out@ =~= base + pre.blocking.targets().subrange(0, j + 1));
                assert forall|id: usize|
                    #[trigger] self@.blocking.idle.contains(id) <==> pre.blocking.idle.contains(id)
                        || exists|k: int| 0 <= k < j + 1 && #[trigger] pre.blocking.at(id, k) by {
                    if id == e.0 {
                        assert(pre.blocking.at(id, j));
                    }
                    if exists|k: int| 0 <= k < j + 1 && #[trigger] pre.blocking.at(id, k) {
                        let k = choose|k: int| 0 <= k < j + 1 && #[trigger] pre.blocking.at(id, k);
                        if k < j {
                            assert(pre.blocking.at(id, k));
                        }
                    }
                    if exists|k: int| 0 <= k < j && #[trigger] pre.blocking.at(id, k) {
                        let k = choose|k: int| 0 <= k < j && #[trigger] pre.blocking.at(id, k);
                        assert(0 <= k < j + 1 && pre.blocking.at(id, k));
                    }
                }
                j = j + 1;
            }
        }
        proof {
            assert(j == pre.blocking.linked.len());
            assert(pre.blocking.targets().subrange(0, j) =~= pre.blocking.targets());
        }
        self.tasks.drain(out);
        assert(out@ =~= base + pre.everyone());
        assert(self@.blocking.linked =~= pre.all_woken().blocking.linked);
        assert(self@.tasks.queue =~= pre.all_woken().tasks.queue);
        assert(self@.blocking.idle =~= pre.all_woken().blocking.idle);
        assert(self@.tasks.idle =~= pre.all_woken().tasks.idle);
    }
}

/// A wake-up reaches somebody whenever a live waiter is queued, however many tombstones
/// stand before it.
pub proof fn law_notify_reaches_a_live_waiter<W>(m: WaitModel<W>)
    ensures
        m.has_live_waiter() <==> m.notified().1 is Some,
{
    lemma_skip_dead(m.tasks.queue);
}

/// A task that cancels takes nobody else's place: the live tasks that remain are the
/// others, in their order.
pub proof fn law_cancel_keeps_the_others_in_order<W>(q: Seq<(usize, Option<W>)>, id: usize)
    ensures
        live(swept(marked(q, id))) == live(marked(q, id)),
{
    let p = marked(q, id);
    lemma_skip_dead(p);
    super::async_list::lemma_live(skip_dead(p));
}

/// After a cancellation tombstones are fewer than half of the queue.
pub proof fn law_tombstones_stay_below_half<W>(q: Seq<(usize, Option<W>)>, id: usize)
    ensures
        ({
            let r = swept(marked(q, id));
            dead(r) == 0 || dead(r) * 2 < r.len()
        }),
{
    super::async_list::lemma_live(skip_dead(marked(q, id)));
}

} // verus!
