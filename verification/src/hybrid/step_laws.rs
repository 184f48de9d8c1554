use super::errors::{RecvError, ResultAsyncReceiver, ResultReceiver, SendError};
use super::inner::{line_waits, LinkModel};
use super::receiver::{
    batch_joined, batch_received, poll_received, try_received, RecvOp, RecvStep,
};
use super::recv_batch::{RecvBatchFuture, RecvBatchOp, RecvBatchStep};
use super::sender::{try_sent, SendOp, SendStep, WaitEvent};
use crate::waiters::{others, ListModel};
use vstd::prelude::*;

verus! {

/// An attempt to receive takes the oldest item if there is one, and nothing else; it wakes the
/// sender that has waited longest. It says that the channel is closed only when no sender and
/// no item is left.
pub proof fn law_attempt_to_receive<T, W>(m: LinkModel<T, W>)
    ensures
        ({
            let (m2, r) = try_received(m);
            &&& r is Ok <==> m.items.len() > 0
            &&& r is Ok ==> r->Ok_0 == m.items[0] && m2.items == m.items.drop_first()
            &&& r is Ok && m.send_waiters.linked.len() > 0 ==> {
                &&& m2.woken == m.woken.push(m.send_waiters.linked[0].1)
                &&& m2.send_waiters.linked == m.send_waiters.linked.drop_first()
            }
            &&& m.send_waiters.linked.len() == 0 ==> m2.woken == m.woken && m2.send_waiters
                == m.send_waiters
            &&& r is Err ==> m2 == m
            &&& r == Err::<T, _>(RecvError::Disconnected) <==> m.tx_closed && m.items.len() == 0
            &&& r == Err::<T, _>(RecvError::Empty) <==> !m.tx_closed && m.items.len() == 0
            &&& m2.recv_waiters == m.recv_waiters
            &&& (m2.tx_closed, m2.rx_closed, m2.senders, m2.receivers) == (
                m.tx_closed,
                m.rx_closed,
                m.senders,
                m.receivers,
            )
        }),
{
    lemma_one_woken(m);
}

/// An attempt to send adds the item behind all others if receivers are there and fewer than
/// `cap` items are, and does nothing else; it wakes the receiver that has waited longest. It
/// says that the channel is full only when it is, and that the receivers are gone only when
/// they are.
pub proof fn law_attempt_to_send<T, W>(m: LinkModel<T, W>, cap: int, v: T)
    ensures
        ({
            let (m2, r) = try_sent(m, cap, v);
            &&& r is Ok <==> !m.rx_closed && m.items.len() < cap
            &&& r is Ok ==> m2.items == m.items.push(v)
            &&& r is Ok && m.recv_waiters.linked.len() > 0 ==> {
                &&& m2.woken == m.woken.push(m.recv_waiters.linked[0].1)
                &&& m2.recv_waiters.linked == m.recv_waiters.linked.drop_first()
            }
            &&& m.recv_waiters.linked.len() == 0 ==> m2.woken == m.woken && m2.recv_waiters
                == m.recv_waiters
            &&& r is Err ==> m2 == m
            &&& r == Err::<(), _>(SendError::Disconnected(v)) <==> m.rx_closed
            &&& r == Err::<(), _>(SendError::Full(v)) <==> !m.rx_closed && m.items.len() >= cap
            &&& m2.send_waiters == m.send_waiters
            &&& (m2.tx_closed, m2.rx_closed, m2.senders, m2.receivers) == (
                m.tx_closed,
                m.rx_closed,
                m.senders,
                m.receivers,
            )
        }),
{
    lemma_one_woken(m);
    lemma_one_woken(m.pushed(v));
}

/// One wake-up adds the longest waiter to those to wake, or nobody.
proof fn lemma_one_woken<T, W>(m: LinkModel<T, W>)
    ensures
        m.recv_waiters.linked.len() > 0 ==> m.receiver_notified().woken == m.woken.push(
            m.recv_waiters.linked[0].1,
        ),
        m.recv_waiters.linked.len() == 0 ==> m.receiver_notified() == m,
        m.send_waiters.linked.len() > 0 ==> m.sender_notified().woken == m.woken.push(
            m.send_waiters.linked[0].1,
        ),
        m.send_waiters.linked.len() == 0 ==> m.sender_notified() == m,
{
    assert(m.woken + Seq::<W>::empty() =~= m.woken);
    if m.recv_waiters.linked.len() > 0 {
        assert(m.receiver_notified().woken =~= m.woken.push(m.recv_waiters.linked[0].1));
    }
    if m.send_waiters.linked.len() > 0 {
        assert(m.sender_notified().woken =~= m.woken.push(m.send_waiters.linked[0].1));
    }
}

/// A blocking receive conserves items: a step either ends with the oldest item and takes
/// exactly that one out of the channel, or leaves the items as they are. Only a step that
/// takes an item wakes anybody, and then the sender that has waited longest.
pub proof fn law_blocking_receive_conserves_items<T, W>(
    pre: RecvOp,
    m: LinkModel<T, W>,
    ev: WaitEvent<W>,
    post: RecvOp,
    m2: LinkModel<T, W>,
    r: RecvStep<T>,
)
    requires
        pre.fits(m),
        pre.expects(ev),
        post.stepped(&pre, m, ev, m2, r),
    ensures
        match r {
            RecvStep::Done(Ok(v)) => {
                &&& m.items.len() > 0
                &&& v == m.items[0]
                &&& m2.items == m.items.drop_first()
                &&& m2.recv_waiters == m.recv_waiters
                &&& m.send_waiters.linked.len() > 0 ==> m2.woken == m.woken.push(
                    m.send_waiters.linked[0].1,
                )
            },
            _ => {
                &&& m2.items == m.items
                &&& m2.send_waiters == m.send_waiters
                &&& m2.woken == m.woken
            },
        },
        (m2.tx_closed, m2.rx_closed, m2.senders, m2.receivers) == (
            m.tx_closed,
            m.rx_closed,
            m.senders,
            m.receivers,
        ),
{
    law_attempt_to_receive(m);
}

/// A blocking receive answers as soon as it can, and only what is so: an item whenever it
/// looks and there is one; that the channel is closed when it looks and neither a sender nor
/// an item is left, and never otherwise; that the time is up exactly when it was told so. It
/// parks only when there is neither an item nor the end, and stands at the back of the line
/// then. From finding nothing to parking it takes one question, or two with a deadline.
pub proof fn law_blocking_receive_answers<T, W>(
    pre: RecvOp,
    m: LinkModel<T, W>,
    ev: WaitEvent<W>,
    post: RecvOp,
    m2: LinkModel<T, W>,
    r: RecvStep<T>,
)
    requires
        pre.fits(m),
        pre.expects(ev),
        post.stepped(&pre, m, ev, m2, r),
    ensures
        (pre.phase() is Attempt || pre.phase() is Enlist) && m.items.len() > 0 ==> r
            == RecvStep::Done(Ok::<T, RecvError>(m.items[0])),
        (pre.phase() is Attempt || pre.phase() is Enlist) && m.tx_closed && m.items.len() == 0
            ==> r == RecvStep::<T>::Done(Err(RecvError::Disconnected)),
        r matches RecvStep::Done(Err(RecvError::Disconnected)) ==> m.tx_closed && m.items.len()
            == 0,
        r matches RecvStep::Done(Err(RecvError::TimeOut(d))) ==> ev == WaitEvent::<W>::Expired(d),
        !(r matches RecvStep::Done(Err(RecvError::Empty))),
        ev matches WaitEvent::Expired(d) ==> r == RecvStep::<T>::Done(Err(RecvError::TimeOut(d))),
        r is Done ==> post.phase() is Finished,
        r is Park ==> {
            &&& m.items.len() == 0
            &&& !m.tx_closed
            &&& ev is Thread
            &&& post.phase() is Parked
            &&& m2.recv_waiters.linked == m.recv_waiters.linked.push(
                (post.phase()->node, ev->Thread_0),
            )
        },
        !(r is Park) && !(pre.phase() is Parked) ==> m2.recv_waiters == m.recv_waiters,
        pre.phase() is Parked ==> post.phase() is Attempt && r is Again,
        r is AskClock <==> pre.phase() is Attempt && pre.timed() && m.items.len() == 0
            && !m.tx_closed,
        r is AskThread <==> post.phase() is Enlist,
        pre.phase() is Attempt && !pre.timed() && !(r is Done) ==> r is AskThread,
        pre.phase() is Clock && !(ev is Expired) ==> r is AskThread,
        pre.phase() is Enlist && !(r is Done) ==> r is Park,
        r is Done || post.timed() == pre.timed(),
{
}

/// A blocking send conserves items: a step either ends with its item behind all others in the
/// channel, or leaves the channel's items as they are and hands the item back or keeps it.
/// Only a step that sends wakes anybody, and then the receiver that has waited longest.
pub proof fn law_blocking_send_conserves_items<T, W>(
    pre: SendOp<T>,
    m: LinkModel<T, W>,
    ev: WaitEvent<W>,
    cap: int,
    post: SendOp<T>,
    m2: LinkModel<T, W>,
    r: SendStep<T>,
)
    requires
        pre.fits(m),
        pre.expects(ev),
        post.stepped(&pre, m, ev, cap, m2, r),
    ensures
        match r {
            SendStep::Done(Ok(_)) => {
                &&& m2.items == m.items.push(pre.value()->Some_0)
                &&& m.items.len() < cap && !m.rx_closed
                &&& post.value() is None
                &&& m2.send_waiters == m.send_waiters
                &&& m.recv_waiters.linked.len() > 0 ==> m2.woken == m.woken.push(
                    m.recv_waiters.linked[0].1,
                )
            },
            _ => {
                &&& m2.items == m.items
                &&& m2.recv_waiters == m.recv_waiters
                &&& m2.woken == m.woken
                &&& !(r is Done) ==> post.value() == pre.value()
            },
        },
        r matches SendStep::Done(Err(e)) ==> Some(e.item()) == pre.value(),
        (m2.tx_closed, m2.rx_closed, m2.senders, m2.receivers) == (
            m.tx_closed,
            m.rx_closed,
            m.senders,
            m.receivers,
        ),
{
    law_attempt_to_send(m, cap, pre.value()->Some_0);
}

/// A blocking send answers as soon as it can, and only what is so: with the item sent whenever
/// it looks, receivers are there and there is room; with the item handed back when it looks
/// and the receivers are gone; with the time exactly when it was told that it is up. It parks
/// only when there is no room, and stands at the back of the line then.
pub proof fn law_blocking_send_answers<T, W>(
    pre: SendOp<T>,
    m: LinkModel<T, W>,
    ev: WaitEvent<W>,
    cap: int,
    post: SendOp<T>,
    m2: LinkModel<T, W>,
    r: SendStep<T>,
)
    requires
        pre.fits(m),
        pre.expects(ev),
        post.stepped(&pre, m, ev, cap, m2, r),
    ensures
        (pre.phase() is Attempt || pre.phase() is Enlist) && !m.rx_closed && m.items.len() < cap
            ==> r matches SendStep::Done(Ok(_)),
        (pre.phase() is Attempt || pre.phase() is Enlist) && m.rx_closed
            ==> r matches SendStep::Done(Err(SendError::Disconnected(_))),
        r matches SendStep::Done(Err(SendError::Disconnected(_))) ==> m.rx_closed,
        r matches SendStep::Done(Err(SendError::TimeOut(x))) ==> ev == WaitEvent::<W>::Expired(x.1),
        !(r matches SendStep::Done(Err(SendError::Full(_)))),
        ev matches WaitEvent::Expired(d) ==> r == SendStep::Done(
            Err::<(), _>(SendError::TimeOut((pre.value()->Some_0, d))),
        ),
        r is Done ==> post.phase() is Finished,
        r is Park ==> {
            &&& m.items.len() >= cap
            &&& !m.rx_closed
            &&& ev is Thread
            &&& post.phase() is Parked
            &&& m2.send_waiters.linked == m.send_waiters.linked.push(
                (post.phase()->node, ev->Thread_0),
            )
        },
        !(r is Park) && !(pre.phase() is Parked) ==> m2.send_waiters == m.send_waiters,
        pre.phase() is Parked ==> post.phase() is Attempt && r is Again,
        r is AskClock <==> pre.phase() is Attempt && pre.timed() && m.items.len() >= cap
            && !m.rx_closed,
        r is AskThread <==> post.phase() is Enlist,
        pre.phase() is Attempt && !pre.timed() && !(r is Done) ==> r is AskThread,
        pre.phase() is Clock && !(ev is Expired) ==> r is AskThread,
        pre.phase() is Enlist && !(r is Done) ==> r is Park,
        r is Done || post.timed() == pre.timed(),
{
}

/// A waiter that wakes up leaves the line, and nobody else loses the place in it.
pub proof fn law_parked_thread_leaves_its_line<T, W>(
    send_pre: SendOp<T>,
    send_post: SendOp<T>,
    recv_pre: RecvOp,
    recv_post: RecvOp,
    m: LinkModel<T, W>,
    cap: int,
    m2: LinkModel<T, W>,
    sent: SendStep<T>,
    got: RecvStep<T>,
)
    requires
        m.sound(cap),
    ensures
        send_pre.phase() is Parked && send_post.stepped(
            &send_pre,
            m,
            WaitEvent::Go,
            cap,
            m2,
            sent,
        ) ==> {
            &&& !m2.send_waiters.has(send_pre.phase()->node)
            &&& m2.send_waiters.linked == others(
                m.send_waiters.linked,
                send_pre.phase()->node,
            )
        },
        recv_pre.phase() is Parked && recv_post.stepped(&recv_pre, m, WaitEvent::Go, m2, got) ==> {
            &&& !m2.recv_waiters.has(recv_pre.phase()->node)
            &&& m2.recv_waiters.linked == others(
                m.recv_waiters.linked,
                recv_pre.phase()->node,
            )
        },
{
    if send_pre.phase() is Parked {
        crate::waiters::law_leaving_keeps_the_others(m.send_waiters, send_pre.phase()->node);
    }
    if recv_pre.phase() is Parked {
        crate::waiters::law_leaving_keeps_the_others(m.recv_waiters, recv_pre.phase()->node);
    }
}

/// A poll of an awaited receive is ready with the oldest item, which it takes, if there is
/// one; ready with the end if neither a sender nor an item is left; and pending otherwise. A
/// pending task stands in the line with the waker that it gave last, in the place that it had
/// if it still had one, and at the back if not.
pub proof fn law_poll_of_a_receive<T, W>(
    m: LinkModel<T, W>,
    node: Option<usize>,
    waker: W,
    m2: LinkModel<T, W>,
    node2: Option<usize>,
    r: Option<ResultAsyncReceiver<T>>,
)
    requires
        m.recv_waiters.sound(),
        poll_received(m, node, waker, m2, node2, r),
    ensures
        r matches Some(Ok(v)) ==> {
            &&& m.items.len() > 0 && m.items[0] == v
            &&& m2.items == m.items.drop_first()
            &&& m.send_waiters.linked.len() > 0 ==> m2.woken == m.woken.push(
                m.send_waiters.linked[0].1,
            )
        },
        m.items.len() > 0 ==> r matches Some(Ok(_)),
        r matches Some(Err(_)) <==> m.tx_closed && m.items.len() == 0,
        !(r matches Some(Ok(_))) ==> m2.items == m.items && m2.woken == m.woken
            && m2.send_waiters == m.send_waiters,
        r is Some ==> node2 is None,
        r is Some && node is None ==> m2.recv_waiters == m.recv_waiters,
        r is Some && node is Some ==> m2.recv_waiters.linked == others(
            m.recv_waiters.linked,
            node->Some_0,
        ),
        r is None ==> {
            &&& node2 is Some
            &&& m2.recv_waiters.linked.contains((node2->Some_0, waker))
            &&& node is Some ==> node2 == node
            &&& !(node is Some && m.recv_waiters.has(node->Some_0)) ==> m2.recv_waiters.linked
                == m.recv_waiters.linked.push((node2->Some_0, waker))
            &&& node is Some && m.recv_waiters.has(node->Some_0)
                ==> m2.recv_waiters.linked.len() == m.recv_waiters.linked.len()
        },
        (m2.tx_closed, m2.rx_closed, m2.senders, m2.receivers) == (
            m.tx_closed,
            m.rx_closed,
            m.senders,
            m.receivers,
        ),
{
    law_attempt_to_receive(m);
    if r is Some && node is Some {
        crate::waiters::law_leaving_keeps_the_others(m.recv_waiters, node->Some_0);
    }
    if r is None {
        lemma_stands(m.recv_waiters, node, waker, node2->Some_0, m2.recv_waiters);
    }
}

/// A waiter that waits stands in the line with its target.
proof fn lemma_stands<W>(
    l: ListModel<W>,
    node: Option<usize>,
    target: W,
    id: usize,
    post: ListModel<W>,
)
    requires
        line_waits(l, node, target, id, post),
    ensures
        post.linked.contains((id, target)),
{
    if node is Some && l.has(id) {
        let k = choose|k: int| l.at(id, k);
        assert(post.linked[k] == (id, target));
    } else {
        assert(post.linked[l.linked.len() as int] == (id, target));
    }
}

/// A batch receive that waited for its first item puts that item first and the others behind
/// it, in the order in which they were in the channel; together they are no more than `max`,
/// and fewer only if no more were there. A wait that ended without an item brings none.
pub proof fn law_waited_batch_keeps_order<T, W>(
    m: LinkModel<T, W>,
    buf: Seq<T>,
    max: int,
    first: ResultReceiver<T>,
    m2: LinkModel<T, W>,
    buf2: Seq<T>,
    count: int,
    dc: bool,
)
    requires
        max > 0,
        batch_joined(m, buf, max, first, m2, buf2, count, dc),
    ensures
        0 <= count <= max,
        first is Ok ==> {
            &&& count >= 1
            &&& buf2 == buf.push(first->Ok_0) + m.items.subrange(0, count - 1)
            &&& m2.items == m.items.subrange(count - 1, m.items.len() as int)
            &&& count == max || m2.items.len() == 0
            &&& dc <==> count == 1 && m.tx_closed && m.items.len() == 0
            &&& count > 1 && m.send_waiters.linked.len() > 0 ==> m2.woken == m.woken.push(
                m.send_waiters.linked[0].1,
            )
        },
        first is Err ==> count == 0 && m2 == m && buf2 == buf && (dc
            <==> first->Err_0 is Disconnected),
{
    if first is Ok {
        lemma_one_woken(m.popped_n(count - 1));
        assert(m.items.subrange(0, m.items.len() as int) =~= m.items);
    }
}

/// A batch taken at once wakes the sender that has waited longest, once for all items, and
/// only if it took any.
pub proof fn law_batch_wakes_one_sender<T, W>(m: LinkModel<T, W>, n: int)
    requires
        0 <= n <= m.items.len(),
    ensures
        batch_received(m, n).items == m.items.subrange(n, m.items.len() as int),
        n == 0 || m.send_waiters.linked.len() == 0 ==> batch_received(m, n).woken == m.woken,
        n > 0 && m.send_waiters.linked.len() > 0 ==> {
            &&& batch_received(m, n).woken == m.woken.push(m.send_waiters.linked[0].1)
            &&& batch_received(m, n).send_waiters.linked == m.send_waiters.linked.drop_first()
        },
        batch_received(m, n).recv_waiters == m.recv_waiters,
{
    lemma_one_woken(m.popped_n(n));
    assert(m.items.subrange(0, m.items.len() as int) =~= m.items);
}

/// A batch receive with waiting conserves items: when it is over, the items that came are
/// behind those that the caller had, oldest first and without a gap, and exactly they are gone
/// from the channel; until then nothing moves. A receive of no items is over at once.
pub proof fn law_blocking_batch_receive_conserves_items<T, W>(
    pre: RecvBatchOp,
    m: LinkModel<T, W>,
    buf: Seq<T>,
    ev: WaitEvent<W>,
    post: RecvBatchOp,
    m2: LinkModel<T, W>,
    buf2: Seq<T>,
    r: RecvBatchStep<T>,
)
    requires
        pre.first().fits(m),
        pre.first().expects(ev),
        post.stepped(&pre, m, buf, ev, m2, buf2, r),
    ensures
        pre.max() == 0 ==> r == RecvBatchStep::<T>::Done(0, false),
        r matches RecvBatchStep::Done(n, dc) ==> {
            &&& n <= pre.max()
            &&& n <= m.items.len()
            &&& buf2 == buf + m.items.subrange(0, n as int)
            &&& m2.items == m.items.subrange(n as int, m.items.len() as int)
            &&& n > 0 ==> n == pre.max() || m2.items.len() == 0
            &&& dc ==> m.tx_closed && m2.items.len() == 0
            &&& n == 1 ==> (dc <==> m.tx_closed && m2.items.len() == 0)
            &&& n > 1 ==> !dc
        },
        r is Wait ==> m2.items == m.items && buf2 == buf && !(r->Wait_0 is Done),
        pre.max() > 0 && pre.first().phase() is Attempt && m.tx_closed && m.items.len() == 0 ==> r
            == RecvBatchStep::<T>::Done(0, true),
        pre.max() > 0 && pre.first().phase() is Attempt && m.items.len() > 0 ==> r is Done
            && r->Done_0 > 0,
{
    if pre.max() > 0 {
        let (mid, s) = choose|mid: LinkModel<T, W>, s: RecvStep<T>|
            #![trigger post.first().stepped(&pre.first(), m, ev, mid, s)]
            {
                &&& post.first().stepped(&pre.first(), m, ev, mid, s)
                &&& match s {
                    RecvStep::Done(first) => {
                        &&& r is Done
                        &&& batch_joined(
                            mid,
                            buf,
                            pre.max() as int,
                            first,
                            m2,
                            buf2,
                            r->Done_0 as int,
                            r->Done_1,
                        )
                    },
                    _ => r == RecvBatchStep::Wait(s) && m2 == mid && buf2 == buf,
                }
            };
        law_blocking_receive_conserves_items(pre.first(), m, ev, post.first(), mid, s);
        law_blocking_receive_answers(pre.first(), m, ev, post.first(), mid, s);
        if s is Done {
            lemma_batch_adds_up(
                m.items,
                mid,
                buf,
                pre.max() as int,
                s->Done_0,
                m2,
                buf2,
                r->Done_0 as int,
                r->Done_1,
            );
        }
    } else {
        assert(m.items.subrange(0, m.items.len() as int) =~= m.items);
        assert(buf2 =~= buf + m.items.subrange(0, 0));
    }
}

/// The first item and those after it are a stretch of what was there before.
proof fn lemma_batch_adds_up<T, W>(
    items: Seq<T>,
    mid: LinkModel<T, W>,
    buf: Seq<T>,
    max: int,
    first: ResultReceiver<T>,
    m2: LinkModel<T, W>,
    buf2: Seq<T>,
    count: int,
    dc: bool,
)
    requires
        max > 0,
        batch_joined(mid, buf, max, first, m2, buf2, count, dc),
        first is Ok ==> items.len() > 0 && first->Ok_0 == items[0] && mid.items
            == items.drop_first(),
        first is Err ==> mid.items == items,
    ensures
        0 <= count <= items.len(),
        buf2 == buf + items.subrange(0, count),
        m2.items == items.subrange(count, items.len() as int),
{
    law_waited_batch_keeps_order(mid, buf, max, first, m2, buf2, count, dc);
    assert(buf2 =~= buf + items.subrange(0, count));
    assert(m2.items =~= items.subrange(count, items.len() as int));
}

/// The same of a batch receive that a task awaits.
pub proof fn law_awaited_batch_receive_conserves_items<T, W>(
    pre: RecvBatchFuture,
    m: LinkModel<T, W>,
    buf: Seq<T>,
    waker: W,
    post: RecvBatchFuture,
    m2: LinkModel<T, W>,
    buf2: Seq<T>,
    r: Option<(usize, bool)>,
)
    requires
        m.recv_waiters.sound(),
        post.polled(&pre, m, buf, waker, m2, buf2, r),
    ensures
        pre.max() == 0 ==> r == Some((0usize, false)),
        r matches Some(x) ==> {
            &&& x.0 <= pre.max()
            &&& x.0 <= m.items.len()
            &&& buf2 == buf + m.items.subrange(0, x.0 as int)
            &&& m2.items == m.items.subrange(x.0 as int, m.items.len() as int)
            &&& x.0 > 0 ==> x.0 == pre.max() || m2.items.len() == 0
            &&& x.1 ==> m.tx_closed && m2.items.len() == 0
            &&& x.0 == 1 ==> (x.1 <==> m.tx_closed && m2.items.len() == 0)
            &&& x.0 > 1 ==> !x.1
        },
        r is None ==> m2.items == m.items && buf2 == buf && m.items.len() == 0 && !m.tx_closed,
        pre.max() > 0 && m.items.len() > 0 ==> r is Some && r->Some_0.0 > 0,
        pre.max() > 0 && m.tx_closed && m.items.len() == 0 ==> r == Some((0usize, true)),
{
    if pre.max() > 0 {
        let (mid, p) = choose|mid: LinkModel<T, W>, p: Option<ResultAsyncReceiver<T>>|
            #![trigger poll_received(m, pre.first().node(), waker, mid, post.first().node(), p)]
            {
                &&& poll_received(m, pre.first().node(), waker, mid, post.first().node(), p)
                &&& match p {
                    Some(a) => {
                        &&& r is Some
                        &&& batch_joined(
                            mid,
                            buf,
                            pre.max() as int,
                            super::recv_batch::as_waited(a),
                            m2,
                            buf2,
                            r->Some_0.0 as int,
                            r->Some_0.1,
                        )
                    },
                    None => r is None && m2 == mid && buf2 == buf,
                }
            };
        law_poll_of_a_receive(m, pre.first().node(), waker, mid, post.first().node(), p);
        if p is Some {
            lemma_batch_adds_up(
                m.items,
                mid,
                buf,
                pre.max() as int,
                super::recv_batch::as_waited(p->Some_0),
                m2,
                buf2,
                r->Some_0.0 as int,
                r->Some_0.1,
            );
        }
    } else {
        assert(m.items.subrange(0, m.items.len() as int) =~= m.items);
        assert(buf2 =~= buf + m.items.subrange(0, 0));
    }
}

/// The last handle of a side closes the channel for the other side and wakes everybody who
/// waits there, each once and by age; an earlier one is only counted. No item is touched.
pub proof fn law_last_handle_closes<T, W>(m: LinkModel<T, W>, counted: bool)
    ensures
        !counted || m.senders == 1 ==> {
            &&& m.sender_gone(counted).tx_closed
            &&& m.sender_gone(counted).recv_waiters.linked.len() == 0
            &&& m.sender_gone(counted).woken.len() == m.woken.len() + m.recv_waiters.linked.len()
            &&& forall|k: int|
                0 <= k < m.recv_waiters.linked.len() ==> #[trigger] m.sender_gone(
                    counted,
                ).woken[m.woken.len() + k] == m.recv_waiters.linked[k].1
        },
        counted && m.senders > 1 ==> m.sender_gone(counted) == (LinkModel {
            senders: (m.senders - 1) as usize,
            ..m
        }),
        !counted || m.receivers == 1 ==> {
            &&& m.receiver_gone(counted).rx_closed
            &&& m.receiver_gone(counted).send_waiters.linked.len() == 0
            &&& m.receiver_gone(counted).woken.len() == m.woken.len() + m.send_waiters.linked.len()
            &&& forall|k: int|
                0 <= k < m.send_waiters.linked.len() ==> #[trigger] m.receiver_gone(
                    counted,
                ).woken[m.woken.len() + k] == m.send_waiters.linked[k].1
        },
        counted && m.receivers > 1 ==> m.receiver_gone(counted) == (LinkModel {
            receivers: (m.receivers - 1) as usize,
            ..m
        }),
        m.sender_gone(counted).items == m.items,
        m.sender_gone(counted).send_waiters == m.send_waiters,
        m.sender_gone(counted).rx_closed == m.rx_closed,
        m.receiver_gone(counted).items == m.items,
        m.receiver_gone(counted).recv_waiters == m.recv_waiters,
        m.receiver_gone(counted).tx_closed == m.tx_closed,
{
    if m.senders > 1 {
        assert((m.senders - 1) % crate::pow2::word() == m.senders - 1) by {
            vstd::arithmetic::div_mod::lemma_small_mod(
                (m.senders - 1) as nat,
                crate::pow2::word() as nat,
            );
        }
    }
    if m.receivers > 1 {
        assert((m.receivers - 1) % crate::pow2::word() == m.receivers - 1) by {
            vstd::arithmetic::div_mod::lemma_small_mod(
                (m.receivers - 1) as nat,
                crate::pow2::word() as nat,
            );
        }
    }
}

} // verus!
