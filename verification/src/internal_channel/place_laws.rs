use super::async_list::{lemma_live, lemma_skip_dead, live, marked, skip_dead, AsyncModel};
use super::model::ChannelModel;
use super::sync::WaitModel;
use crate::waiters::{lemma_without_keeps, without};
use vstd::prelude::*;

verus! {

/// A task that is queued stands, live, somewhere in the queue.
proof fn lemma_has<W>(m: AsyncModel<W>, k: int)
    requires
        0 <= k < m.queue.len(),
        m.queue[k].1 is Some,
    ensures
        m.has(m.queue[k].0),
{
    assert(m.at(m.queue[k].0, k));
}

/// Dropping tombstones from the front keeps every task.
proof fn lemma_skip_keeps<W>(m: AsyncModel<W>, m2: AsyncModel<W>, id: usize)
    requires
        m2.queue == skip_dead(m.queue),
        m.has(id),
    ensures
        m2.has(id),
{
    lemma_skip_dead(m.queue);
    let k = choose|k: int| m.at(id, k);
    let cut = m.queue.len() - m2.queue.len();
    assert(m2.queue[k - cut] == m.queue[k]);
    lemma_has(m2, k - cut);
}

proof fn lemma_pop_task_keeps<W>(m: WaitModel<W>, id: usize)
    ensures
        m.tasks.holds(id) ==> m.pop_task().0.tasks.holds(id),
        m.pop_task().0.blocking == m.blocking,
{
    let q = skip_dead(m.tasks.queue);
    let m2 = m.pop_task().0.tasks;
    if m.tasks.has(id) {
        let mid = AsyncModel { queue: q, ..m.tasks };
        lemma_skip_keeps(m.tasks, mid, id);
        let k = choose|k: int| mid.at(id, k);
        if k > 0 {
            assert(m2.queue[k - 1] == q[k]);
            lemma_has(m2, k - 1);
        }
    }
}

proof fn lemma_pop_thread_keeps<W>(m: WaitModel<W>, id: usize)
    ensures
        m.blocking.holds(id) ==> m.pop_thread().0.blocking.holds(id),
        m.pop_thread().0.tasks == m.tasks,
{
    let l = m.blocking.linked;
    let m2 = m.pop_thread().0.blocking;
    if m.blocking.has(id) && l.len() > 0 {
        let k = choose|k: int| m.blocking.at(id, k);
        if k > 0 {
            assert(m2.at(id, k - 1));
        }
    }
}

proof fn lemma_notified_keeps<W>(m: WaitModel<W>, id: usize)
    ensures
        m.tasks.holds(id) ==> m.notified().0.tasks.holds(id),
        m.blocking.holds(id) ==> m.notified().0.blocking.holds(id),
{
    lemma_pop_task_keeps(m, id);
    lemma_pop_thread_keeps(m, id);
    lemma_pop_thread_keeps(m.pop_task().0, id);
}

proof fn lemma_notified_n_keeps<W>(m: WaitModel<W>, n: nat, id: usize)
    ensures
        m.tasks.holds(id) ==> m.notified_n(n).0.tasks.holds(id),
        m.blocking.holds(id) ==> m.notified_n(n).0.blocking.holds(id),
    decreases n,
{
    if n > 0 && m.has_waiters() {
        lemma_notified_keeps(m, id);
        lemma_notified_n_keeps(m.notified().0, (n - 1) as nat, id);
    }
}

proof fn lemma_unparked_keeps<W>(m: WaitModel<W>, id: usize, node: usize)
    requires
        node != id,
    ensures
        m.blocking.holds(id) ==> m.unparked(node).blocking.holds(id),
{
    if m.blocking.has(id) {
        let l = m.blocking.linked;
        let k = choose|k: int| m.blocking.at(id, k);
        lemma_without_keeps(l, id, node, k);
        let j = choose|j: int| 0 <= j < without(l, node).len() && without(l, node)[j].0 == id;
        assert(m.unparked(node).blocking.at(id, j));
    }
}

proof fn lemma_task_gone_keeps<W>(m: WaitModel<W>, id: usize, slot: Option<usize>)
    requires
        slot != Some(id),
    ensures
        m.tasks.holds(id) ==> m.task_gone(slot).tasks.holds(id),
{
    if m.tasks.has(id) && slot is Some {
        let other = slot->Some_0;
        let q = marked(m.tasks.queue, other);
        let k = choose|k: int| m.tasks.at(id, k);
        assert(q[k] == m.tasks.queue[k]);
        let a = AsyncModel { queue: q, ..m.tasks };
        lemma_has(a, k);
        let r = AsyncModel { queue: skip_dead(q), ..m.tasks };
        lemma_skip_keeps(a, r, id);
        let i = choose|i: int| r.at(id, i);
        let post = m.task_gone(slot).tasks;
        lemma_live(r.queue);
        if post.queue == r.queue {
            lemma_has(post, i);
        } else {
            assert(live(r.queue).contains(r.queue[i]));
            let j = choose|j: int| 0 <= j < post.queue.len() && post.queue[j] == r.queue[i];
            lemma_has(post, j);
        }
    }
}

proof fn lemma_task_waits_keeps<W>(
    m: WaitModel<W>,
    id: usize,
    slot: Option<usize>,
    waker: W,
    new: usize,
    post: WaitModel<W>,
)
    requires
        slot != Some(id),
        m.task_waits(slot, waker, new, post),
    ensures
        m.tasks.holds(id) ==> post.tasks.holds(id),
        m.blocking == post.blocking,
{
    if m.tasks.has(id) {
        let k = choose|k: int| m.tasks.at(id, k);
        assert(post.tasks.queue[k].0 == id);
        assert(post.tasks.queue[k].1 is Some);
        lemma_has(post.tasks, k);
    }
}

/// A waiter's place is its own until it gives it up: no wake-up, and nothing that another
/// waiter does, takes it away. So a thread or a task may go on with its operation
/// whatever happened since its last step.
pub proof fn law_place_is_kept<W>(
    m: WaitModel<W>,
    id: usize,
    n: nat,
    node: usize,
    slot: Option<usize>,
    waker: W,
    new: usize,
    post: WaitModel<W>,
)
    requires
        node != id,
        slot != Some(id),
    ensures
        m.tasks.holds(id) ==> {
            &&& m.notified().0.tasks.holds(id)
            &&& m.notified_n(n).0.tasks.holds(id)
            &&& m.all_woken().tasks.holds(id)
            &&& m.task_gone(slot).tasks.holds(id)
            &&& m.parked(node, waker).tasks.holds(id)
            &&& m.unparked(node).tasks.holds(id)
            &&& m.task_waits(slot, waker, new, post) ==> post.tasks.holds(id)
        },
        m.blocking.holds(id) ==> {
            &&& m.notified().0.blocking.holds(id)
            &&& m.notified_n(n).0.blocking.holds(id)
            &&& m.all_woken().blocking.holds(id)
            &&& m.task_gone(slot).blocking.holds(id)
            &&& m.parked(node, waker).blocking.holds(id)
            &&& m.unparked(node).blocking.holds(id)
            &&& m.task_waits(slot, waker, new, post) ==> post.blocking.holds(id)
        },
{
    lemma_notified_keeps(m, id);
    lemma_notified_n_keeps(m, n, id);
    lemma_unparked_keeps(m, id, node);
    lemma_task_gone_keeps(m, id, slot);
    if m.task_waits(slot, waker, new, post) {
        lemma_task_waits_keeps(m, id, slot, waker, new, post);
    }
    if m.blocking.has(id) {
        let k = choose|k: int| m.blocking.at(id, k);
        assert(m.parked(node, waker).blocking.at(id, k));
    }
}

/// What goes on in a channel leaves the places of those who wait alone: sends, receives,
/// batches and closes only ever take waiters off the queues.
pub proof fn law_traffic_keeps_places<T, W>(m: ChannelModel<T, W>, id: usize, v: T, n: nat)
    ensures
        m.send_waiters.tasks.holds(id) ==> {
            &&& m.sent(v).send_waiters.tasks.holds(id)
            &&& m.received().send_waiters.tasks.holds(id)
            &&& m.senders_notified(n).send_waiters.tasks.holds(id)
            &&& forall|c: bool| #[trigger] m.receiver_gone(c).send_waiters.tasks.holds(id)
            &&& forall|c: bool| #[trigger] m.sender_gone(c).send_waiters.tasks.holds(id)
        },
        m.recv_waiters.tasks.holds(id) ==> {
            &&& m.sent(v).recv_waiters.tasks.holds(id)
            &&& m.received().recv_waiters.tasks.holds(id)
            &&& m.receivers_notified(n).recv_waiters.tasks.holds(id)
            &&& forall|c: bool| #[trigger] m.receiver_gone(c).recv_waiters.tasks.holds(id)
            &&& forall|c: bool| #[trigger] m.sender_gone(c).recv_waiters.tasks.holds(id)
        },
        m.send_waiters.blocking.holds(id) ==> {
            &&& m.sent(v).send_waiters.blocking.holds(id)
            &&& m.received().send_waiters.blocking.holds(id)
            &&& m.senders_notified(n).send_waiters.blocking.holds(id)
            &&& forall|c: bool| #[trigger] m.receiver_gone(c).send_waiters.blocking.holds(id)
            &&& forall|c: bool| #[trigger] m.sender_gone(c).send_waiters.blocking.holds(id)
        },
        m.recv_waiters.blocking.holds(id) ==> {
            &&& m.sent(v).recv_waiters.blocking.holds(id)
            &&& m.received().recv_waiters.blocking.holds(id)
            &&& m.receivers_notified(n).recv_waiters.blocking.holds(id)
            &&& forall|c: bool| #[trigger] m.receiver_gone(c).recv_waiters.blocking.holds(id)
            &&& forall|c: bool| #[trigger] m.sender_gone(c).recv_waiters.blocking.holds(id)
        },
{
    lemma_notified_keeps(m.send_waiters, id);
    lemma_notified_keeps(m.recv_waiters, id);
    lemma_notified_n_keeps(m.send_waiters, n, id);
    lemma_notified_n_keeps(m.recv_waiters, n, id);
}

} // verus!
