use super::async_list::{dead, lemma_live, lemma_skip_dead, live, skip_dead, swept};
use super::model::ChannelModel;
use super::receiver::{batch_received, poll_received, RecvEvent, RecvPoll, RecvStep};
use super::recv_batch::{as_waited, RecvBatchFuture, RecvBatchOp, RecvBatchStep};
use super::step_laws::{
    law_blocking_receive_answers, law_blocking_receive_conserves_items, law_poll_of_a_receive,
    law_waited_batch_keeps_order,
};
use super::sync::{opt_seq, rewoken, WaitModel};
use crate::pow2::word;
use crate::ring::offset;
use vstd::arithmetic::div_mod::lemma_small_mod;
use vstd::prelude::*;

verus! {

/// A batch took `n` items: they are behind those in `buf`, oldest first and without a gap, and
/// exactly they are gone from the front of what was pending.
pub open spec fn took<T>(
    pending: Seq<Option<T>>,
    buf: Seq<T>,
    n: int,
    pending2: Seq<Option<T>>,
    buf2: Seq<T>,
) -> bool {
    &&& 0 <= n <= pending.len()
    &&& pending2 == pending.subrange(n, pending.len() as int)
    &&& buf2.len() == buf.len() + n
    &&& forall|k: int| 0 <= k < buf.len() ==> #[trigger] buf2[k] == buf[k]
    &&& forall|k: int| buf.len() <= k < buf2.len() ==> Some(#[trigger] buf2[k]) == pending[k
        - buf.len()]
}

/// The first item and those after it are a stretch of what was pending before.
proof fn lemma_took<T, W>(
    pending: Seq<Option<T>>,
    mid: ChannelModel<T, W>,
    buf: Seq<T>,
    max: int,
    first: Result<T, super::errors::RecvError>,
    m2: ChannelModel<T, W>,
    buf2: Seq<T>,
    count: int,
    dc: bool,
)
    requires
        max > 0,
        batch_received(mid, buf, max, first, m2, buf2, count, dc),
        first is Ok ==> pending.len() > 0 && pending[0] == Some(first->Ok_0) && mid.pending
            == pending.drop_first(),
        first is Err ==> mid.pending == pending,
    ensures
        took(pending, buf, count, m2.pending, buf2),
        count <= max,
        first is Ok ==> count >= 1,
        first is Err ==> count == 0,
        count > 0 ==> count == max || m2.pending.len() == 0 || m2.pending[0] is None,
{
    law_waited_batch_keeps_order(mid, buf, max, first, m2, buf2, count, dc);
    assert(m2.pending =~= pending.subrange(count, pending.len() as int));
    assert forall|k: int| 0 <= k < buf.len() implies #[trigger] buf2[k] == buf[k] by {
        assert(buf2.subrange(0, buf.len() as int)[k] == buf[k]);
    }
    assert forall|k: int| buf.len() <= k < buf2.len() implies Some(#[trigger] buf2[k]) == pending[k
        - buf.len()] by {
        if k > buf.len() {
            assert(buf2[buf.len() + (k - buf.len())] == buf2[k]);
        }
    }
}

/// A batch receive with waiting conserves items: when it is over, the items that came are
/// behind those that the caller had, in order, and exactly they are gone from the channel;
/// until then nothing moves. It stops short of `max` only where nothing more can be read, and
/// says that the channel is closed only if no sender and no item is left. A receive of no items
/// is over at once.
pub proof fn law_blocking_batch_receive_conserves_items<T, W>(
    pre: RecvBatchOp,
    m: ChannelModel<T, W>,
    buf: Seq<T>,
    ev: RecvEvent<W>,
    post: RecvBatchOp,
    m2: ChannelModel<T, W>,
    buf2: Seq<T>,
    r: RecvBatchStep<T>,
)
    requires
        pre.first().fits(m),
        pre.first().expects(ev),
        post.stepped(&pre, m, buf, ev, m2, buf2, r),
    ensures
        pre.max() == 0 ==> r is Done && r->Done_0 == 0,
        r matches RecvBatchStep::Done(n, dc) ==> {
            &&& n <= pre.max()
            &&& took(m.pending, buf, n as int, m2.pending, buf2)
            &&& n > 0 ==> n == pre.max() || m2.pending.len() == 0 || m2.pending[0] is None
            &&& dc ==> m.tx_closed && m2.pending.len() == 0
            &&& n == 1 ==> (dc <==> m.tx_closed && m2.pending.len() == 0)
            &&& n > 1 ==> !dc
        },
        pre.first().phase() is Attempt && m.tx_closed && m.pending.len() == 0 ==> r
            == RecvBatchStep::<T>::Done(0, true),
        r is Wait ==> m2.pending == m.pending && buf2 == buf && !(r->Wait_0 is Done),
        pre.max() > 0 && pre.first().phase() is Attempt && m.pending.len() > 0 && m.pending[0] is Some
            ==> r is Done && r->Done_0 > 0,
{
    if pre.max() > 0 {
        let (mid, s) = choose|mid: ChannelModel<T, W>, s: RecvStep<T>|
            #![trigger post.first().stepped(&pre.first(), m, ev, mid, s)]
            {
                &&& post.first().stepped(&pre.first(), m, ev, mid, s)
                &&& match s {
                    RecvStep::Done(first) => {
                        &&& r is Done
                        &&& batch_received(
                            mid,
                            buf,
                            pre.max() as int,
                            first,
                            m2,
                            buf2,
                            r->Done_0 as int,
                            r->Done_1,
                        )
                    },
                    _ => r == RecvBatchStep::Wait(s) && m2 == mid && buf2 == buf,
                }
            };
        law_blocking_receive_conserves_items(pre.first(), m, ev, post.first(), mid, s);
        law_blocking_receive_answers(pre.first(), m, ev, post.first(), mid, s);
        if s is Done {
            let (n, dc) = (r->Done_0 as int, r->Done_1);
            let max = pre.max() as int;
            lemma_took(m.pending, mid, buf, max, s->Done_0, m2, buf2, n, dc);
            law_waited_batch_keeps_order(mid, buf, max, s->Done_0, m2, buf2, n, dc);
        }
    } else {
        assert(m.pending.subrange(0, m.pending.len() as int) =~= m.pending);
    }
}

/// The same of a batch receive that a task awaits.
pub proof fn law_awaited_batch_receive_conserves_items<T, W>(
    pre: RecvBatchFuture,
    m: ChannelModel<T, W>,
    buf: Seq<T>,
    waker: W,
    post: RecvBatchFuture,
    m2: ChannelModel<T, W>,
    buf2: Seq<T>,
    r: Option<(usize, bool)>,
)
    requires
        m.recv_waiters.sound(),
        post.polled(&pre, m, buf, waker, m2, buf2, r),
    ensures
        pre.max() == 0 ==> r is Some && r->Some_0.0 == 0,
        r matches Some(x) ==> {
            &&& x.0 <= pre.max()
            &&& took(m.pending, buf, x.0 as int, m2.pending, buf2)
            &&& x.0 > 0 ==> x.0 == pre.max() || m2.pending.len() == 0 || m2.pending[0] is None
            &&& x.1 ==> m.tx_closed && m2.pending.len() == 0
            &&& x.0 == 1 ==> (x.1 <==> m.tx_closed && m2.pending.len() == 0)
            &&& x.0 > 1 ==> !x.1
        },
        r is None ==> m2.pending == m.pending && buf2 == buf,
        pre.max() > 0 && m.pending.len() > 0 && m.pending[0] is Some ==> r is Some && r->Some_0.0
            > 0,
        m.tx_closed && m.pending.len() == 0 ==> r == Some((0usize, true)),
{
    if pre.max() > 0 {
        let (mid, p) = choose|mid: ChannelModel<T, W>, p: RecvPoll<T>|
            #![trigger poll_received(m, pre.first().slot(), waker, mid, post.first().slot(), p)]
            {
                &&& poll_received(m, pre.first().slot(), waker, mid, post.first().slot(), p)
                &&& match p {
                    RecvPoll::Ready(a) => {
                        &&& r is Some
                        &&& batch_received(
                            mid,
                            buf,
                            pre.max() as int,
                            as_waited(a),
                            m2,
                            buf2,
                            r->Some_0.0 as int,
                            r->Some_0.1,
                        )
                    },
                    RecvPoll::Pending => r is None && m2 == mid && buf2 == buf,
                }
            };
        law_poll_of_a_receive(m, pre.first().slot(), waker, mid, post.first().slot(), p);
        if p is Ready {
            let first = as_waited(p->Ready_0);
            let (n, dc) = (r->Some_0.0 as int, r->Some_0.1);
            let max = pre.max() as int;
            lemma_took(m.pending, mid, buf, max, first, m2, buf2, n, dc);
            law_waited_batch_keeps_order(mid, buf, max, first, m2, buf2, n, dc);
        }
    } else {
        assert(m.pending.subrange(0, m.pending.len() as int) =~= m.pending);
    }
}

/// A wake-up that is told not to look among the tasks wakes the thread that has waited longest,
/// and leaves the tasks alone; one that is told not to look among the threads leaves those
/// alone; one that may look nowhere wakes nobody.
pub proof fn law_wake_up_looks_where_it_is_told<W>(m: WaitModel<W>)
    ensures
        m.notified_if(false, false) == (m, None::<W>),
        m.notified_if(true, false).0.blocking == m.blocking,
        m.notified_if(false, true).0.tasks == m.tasks,
        m.blocking.linked.len() > 0 ==> {
            &&& m.notified_if(false, true).1 == Some(m.blocking.linked[0].1)
            &&& m.notified_if(false, true).0.blocking.linked == m.blocking.linked.drop_first()
        },
        m.blocking.linked.len() == 0 ==> m.notified_if(false, true) == (m, None::<W>),
        m.notified_if(true, false).1 is Some ==> m.notified_if(true, true) == m.notified_if(
            true,
            false,
        ),
        (exists|k: int| 0 <= k < m.tasks.queue.len() && (#[trigger] m.tasks.queue[k]).1 is Some)
            <==> m.notified_if(true, false).1 is Some,
{
    let q = m.tasks.queue;
    let s = skip_dead(q);
    lemma_skip_dead(q);
    if s.len() > 0 {
        assert(q[q.len() - s.len()].1 is Some);
    } else {
        assert forall|k: int| 0 <= k < q.len() implies (#[trigger] q[k]).1 is None by {}
    }
}

/// How many entries of the queue are tombstones.
pub open spec fn tombstones<W>(q: Seq<(usize, Option<W>)>) -> nat {
    q.filter(|p: (usize, Option<W>)| p.1 is None).len()
}

proof fn lemma_tombstones<W>(q: Seq<(usize, Option<W>)>)
    ensures
        dead(q) == tombstones(q),
    decreases q.len(),
{
    reveal(Seq::filter);
    if q.len() > 0 {
        lemma_tombstones(q.drop_last());
        super::async_list::lemma_push(q.drop_last(), q.last());
        assert(q.drop_last().push(q.last()) =~= q);
    }
}

/// Tombstones at the front of the queue go at once; those behind a waiter stay until they are
/// half of the queue, and then all of them go. Nobody else moves.
pub proof fn law_sweeping_is_lazy<W>(q: Seq<(usize, Option<W>)>, k: int)
    requires
        0 <= k <= q.len(),
        forall|j: int| 0 <= j < k ==> (#[trigger] q[j]).1 is None,
        k < q.len() ==> q[k].1 is Some,
    ensures
        ({
            let rest = q.subrange(k, q.len() as int);
            &&& 2 * tombstones(rest) < rest.len() || tombstones(rest) == 0 ==> swept(q) == rest
            &&& 2 * tombstones(rest) >= rest.len() ==> swept(q) == rest.filter(
                |p: (usize, Option<W>)| p.1 is Some,
            )
        }),
{
    let rest = q.subrange(k, q.len() as int);
    lemma_skip_dead(q);
    let d = q.len() - skip_dead(q).len();
    if d < k {
        assert(q[d].1 is None);
        assert(skip_dead(q)[0] == q[d]);
    }
    if k < d {
        assert(q[k].1 is None);
    }
    assert(skip_dead(q) =~= rest);
    lemma_tombstones(rest);
    lemma_live_filter(rest);
    if tombstones(rest) == 0 {
        lemma_live(rest);
        lemma_no_tombstones(rest);
    }
}

proof fn lemma_no_tombstones<W>(q: Seq<(usize, Option<W>)>)
    requires
        dead(q) == 0,
    ensures
        live(q) == q,
    decreases q.len(),
{
    if q.len() > 0 {
        lemma_no_tombstones(q.drop_first());
        assert(seq![q[0]] + q.drop_first() =~= q);
    }
}

proof fn lemma_live_filter<W>(q: Seq<(usize, Option<W>)>)
    ensures
        live(q) == q.filter(|p: (usize, Option<W>)| p.1 is Some),
    decreases q.len(),
{
    reveal(Seq::filter);
    if q.len() > 0 {
        lemma_live_filter(q.drop_last());
        super::async_list::lemma_push(q.drop_last(), q.last());
        assert(q.drop_last().push(q.last()) =~= q);
    }
}

/// A handle that is not the last of its side is only counted, if handles are. The last one closes the channel
/// for the other side and wakes everybody who waits there, threads first. No item is touched,
/// and nobody on its own side.
pub proof fn law_last_handle_wakes_everybody<T, W>(m: ChannelModel<T, W>, counted: bool)
    ensures
        m.senders == 1 ==> {
            let m2 = m.sender_gone(counted);
            &&& m2.tx_closed
            &&& m2.recv_waiters.blocking.linked.len() == 0
            &&& m2.recv_waiters.tasks.queue.len() == 0
            &&& m2.woken == m.woken + m.recv_waiters.everyone()
        },
        counted && m.senders > 1 ==> m.sender_gone(counted) == (ChannelModel {
            senders: (m.senders - 1) as usize,
            ..m
        }),
        m.receivers == 1 ==> {
            let m2 = m.receiver_gone(counted);
            &&& m2.rx_closed
            &&& m2.send_waiters.blocking.linked.len() == 0
            &&& m2.send_waiters.tasks.queue.len() == 0
            &&& m2.woken == m.woken + m.send_waiters.everyone()
        },
        counted && m.receivers > 1 ==> m.receiver_gone(counted) == (ChannelModel {
            receivers: (m.receivers - 1) as usize,
            ..m
        }),
        !counted && m.senders > 1 ==> m.sender_gone(counted) == m,
        !counted && m.receivers > 1 ==> m.receiver_gone(counted) == m,
        m.sender_gone(counted).pending == m.pending,
        m.sender_gone(counted).send_waiters == m.send_waiters,
        m.sender_gone(counted).rx_closed == m.rx_closed,
        m.receiver_gone(counted).pending == m.pending,
        m.receiver_gone(counted).recv_waiters == m.recv_waiters,
        m.receiver_gone(counted).tx_closed == m.tx_closed,
        m.senders < usize::MAX ==> m.senders_changed(true, 1) == (ChannelModel {
            senders: (m.senders + 1) as usize,
            ..m
        }),
        m.receivers < usize::MAX ==> m.receivers_changed(true, 1) == (ChannelModel {
            receivers: (m.receivers + 1) as usize,
            ..m
        }),
{
    if m.senders > 1 {
        lemma_small_mod((m.senders - 1) as nat, word() as nat);
    }
    if m.receivers > 1 {
        lemma_small_mod((m.receivers - 1) as nat, word() as nat);
    }
    if m.senders < usize::MAX {
        lemma_small_mod((m.senders + 1) as nat, word() as nat);
    }
    if m.receivers < usize::MAX {
        lemma_small_mod((m.receivers + 1) as nat, word() as nat);
    }
}

/// A new channel is empty and open, with one handle on each side and nobody waiting.
pub proof fn law_new_channel<T, W>()
    ensures
        ({
            let m = ChannelModel::<T, W>::initial();
            &&& m.pending.len() == 0
            &&& m.senders == 1 && m.receivers == 1
            &&& !m.tx_closed && !m.rx_closed
            &&& m.woken.len() == 0
            &&& m.send_waiters.blocking.linked.len() == 0 && m.send_waiters.tasks.queue.len() == 0
            &&& m.recv_waiters.blocking.linked.len() == 0 && m.recv_waiters.tasks.queue.len() == 0
        }),
{
}

/// A reservation takes the next position and leaves it open; filling it writes that position
/// and no other.
pub proof fn law_reserved_position<T, W>(m: ChannelModel<T, W>, pos: usize, v: T)
    requires
        crate::ring::offset(m.head, pos) < m.pending.len(),
    ensures
        m.reserved().pending == m.pending.push(None),
        m.reserved().head == m.head,
        ({
            let k = crate::ring::offset(m.head, pos);
            &&& m.filled(pos, v).pending == m.pending.update(k, Some(v))
            &&& m.filled(pos, v).head == m.head
        }),
{
}

/// Wake-ups are noted in the order in which they are decided, behind those that were noted
/// before; a wake-up that reaches nobody is not noted. `n` wake-ups are one, and then the
/// others.
pub proof fn law_wake_ups_are_noted_in_order<T, W>(m: ChannelModel<T, W>, n: nat)
    ensures
        m.recv_waiters.notified().1 is Some ==> m.receiver_notified().woken == m.woken.push(
            m.recv_waiters.notified().1->Some_0,
        ),
        m.recv_waiters.notified().1 is None ==> m.receiver_notified().woken == m.woken,
        m.receiver_notified().recv_waiters == m.recv_waiters.notified().0,
        m.receiver_notified().send_waiters == m.send_waiters,
        m.receiver_notified().pending == m.pending,
        m.send_waiters.notified().1 is Some ==> m.sender_notified().woken == m.woken.push(
            m.send_waiters.notified().1->Some_0,
        ),
        m.send_waiters.notified().1 is None ==> m.sender_notified().woken == m.woken,
        m.sender_notified().send_waiters == m.send_waiters.notified().0,
        m.sender_notified().recv_waiters == m.recv_waiters,
        m.sender_notified().pending == m.pending,
        m.receivers_notified(0) == m,
        m.senders_notified(0) == m,
        m.recv_waiters.has_waiters() ==> m.receivers_notified(n + 1)
            == m.receiver_notified().receivers_notified(n),
        m.send_waiters.has_waiters() ==> m.senders_notified(n + 1)
            == m.sender_notified().senders_notified(n),
        !m.recv_waiters.has_waiters() ==> m.receivers_notified(n) == m,
        !m.send_waiters.has_waiters() ==> m.senders_notified(n) == m,
{
    let e = Seq::<W>::empty();
    assert(m.woken + e =~= m.woken);
    let (r, rw) = m.recv_waiters.notified();
    let (s, sw) = m.send_waiters.notified();
    if rw is Some {
        assert(m.receiver_notified().woken =~= m.woken.push(rw->Some_0));
    }
    if sw is Some {
        assert(m.sender_notified().woken =~= m.woken.push(sw->Some_0));
    }
    assert(m.woken + (opt_seq(rw) + r.notified_n(n).1) =~= (m.woken + opt_seq(rw)) + r.notified_n(
        n,
    ).1);
    assert(m.woken + (opt_seq(sw) + s.notified_n(n).1) =~= (m.woken + opt_seq(sw)) + s.notified_n(
        n,
    ).1);
}

/// Everybody is woken by age: the threads first, then the tasks that have not given up.
pub proof fn law_everybody_by_age<W>(m: WaitModel<W>)
    ensures
        ({
            let tasks = m.tasks.queue.filter(|p: (usize, Option<W>)| p.1 is Some);
            &&& m.everyone().len() == m.blocking.linked.len() + tasks.len()
            &&& forall|k: int|
                0 <= k < m.blocking.linked.len() ==> #[trigger] m.everyone()[k]
                    == m.blocking.linked[k].1
            &&& forall|k: int|
                0 <= k < tasks.len() ==> Some(#[trigger] m.everyone()[m.blocking.linked.len() + k])
                    == tasks[k].1
        }),
{
    let q = m.tasks.queue;
    lemma_live_filter(q);
    lemma_live(q);
    let tasks = q.filter(|p: (usize, Option<W>)| p.1 is Some);
    assert forall|k: int| 0 <= k < tasks.len() implies Some(
        #[trigger] m.everyone()[m.blocking.linked.len() + k],
    ) == tasks[k].1 by {
        assert(live(q)[k].1 is Some);
    }
}

/// A task that waits again with another waker changes nothing but that waker.
pub proof fn law_waiting_again_keeps_the_place<W>(q: Seq<(usize, Option<W>)>, id: usize, waker: W)
    ensures
        rewoken(q, id, waker).len() == q.len(),
        forall|k: int|
            0 <= k < q.len() && (#[trigger] q[k]).0 != id ==> rewoken(q, id, waker)[k] == q[k],
        forall|k: int|
            0 <= k < q.len() && (#[trigger] q[k]).0 == id ==> rewoken(q, id, waker)[k] == (
                id,
                Some(waker),
            ),
{
}

/// The oldest position moves on by as many places as positions are taken, and no send moves it.
pub proof fn law_oldest_position<T, W>(m: ChannelModel<T, W>, n: int, v: T, vs: Seq<T>)
    requires
        0 <= n <= usize::MAX,
    ensures
        offset(m.head, m.popped_n(n).head) == n,
        offset(m.head, m.popped().head) == 1,
        m.pushed(v).head == m.head,
        m.pushed_all(vs).head == m.head,
        m.sent(v).head == m.head,
        m.received().head == m.popped().head,
{
    crate::ring::law_positions_count_up(m.head, n);
    crate::ring::law_positions_count_up(m.head, 1);
    crate::ring::lemma_pos_after(m.head, 1);
}

} // verus!
